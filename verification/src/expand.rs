//! Variable expansion: `$NAME`, `${NAME}` and `$$` in a line of input.

use crate::strmap::StrMap;
use crate::text::{
    chars_of, ident_start, is_ident_char, is_ident_start, lemma_run_end, lemma_run_end_advances,
    push_str, run_end, scan, string_of, substring, CharClass,
};
use vstd::prelude::*;

verus! {

/// The value of `name` in `vars`, empty where it has none.
pub open spec fn lookup(vars: Map<Seq<char>, Seq<char>>, name: Seq<char>) -> Seq<char> {
    if vars.contains_key(name) {
        vars[name]
    } else {
        Seq::empty()
    }
}

/// The expansion of `s` from index `i` on.
///
/// `$$` gives `$`. `${` takes the name up to the next `}` (or to the end
/// of the input where there is none) and gives its value. `$` before a
/// letter or `_` takes the longest identifier and gives its value. Any
/// other `$`, and every other character, stands for itself.
pub open spec fn expand_from(s: Seq<char>, i: int, vars: Map<Seq<char>, Seq<char>>) -> Seq<char>
    decreases s.len() - i,
{
    if i < 0 || i >= s.len() {
        Seq::empty()
    } else if s[i] != '$' {
        seq![s[i]] + expand_from(s, i + 1, vars)
    } else if i + 1 < s.len() && s[i + 1] == '$' {
        seq!['$'] + expand_from(s, i + 2, vars)
    } else if i + 1 < s.len() && s[i + 1] == '{' {
        let j = run_end(s, i + 2, CharClass::Until('}'));
        proof {
            lemma_run_end(s, i + 2, CharClass::Until('}'));
        }
        lookup(vars, s.subrange(i + 2, j)) + expand_from(
            s,
            if j < s.len() {
                j + 1
            } else {
                j
            },
            vars,
        )
    } else if i + 1 < s.len() && is_ident_start(s[i + 1]) {
        let j = run_end(s, i + 1, CharClass::Ident);
        proof {
            lemma_run_end(s, i + 1, CharClass::Ident);
        }
        lookup(vars, s.subrange(i + 1, j)) + expand_from(s, j, vars)
    } else {
        seq!['$'] + expand_from(s, i + 1, vars)
    }
}

/// The expansion of the whole of `s`.
pub open spec fn spec_expand(s: Seq<char>, vars: Map<Seq<char>, Seq<char>>) -> Seq<char> {
    expand_from(s, 0, vars)
}

/// Whether `s` is an identifier: a letter or `_`, then letters, digits or `_`.
pub open spec fn is_identifier(s: Seq<char>) -> bool {
    &&& s.len() > 0
    &&& is_ident_start(s[0])
    &&& forall|i: int| 0 <= i < s.len() ==> is_ident_char(#[trigger] s[i])
}

proof fn lemma_no_dollar_from(s: Seq<char>, i: int, vars: Map<Seq<char>, Seq<char>>)
    requires
        0 <= i <= s.len(),
        forall|k: int| 0 <= k < s.len() ==> #[trigger] s[k] != '$',
    ensures
        expand_from(s, i, vars) == s.subrange(i, s.len() as int),
    decreases s.len() - i,
{
    if i < s.len() {
        lemma_no_dollar_from(s, i + 1, vars);
        assert(s.subrange(i, s.len() as int) =~= seq![s[i]] + s.subrange(i + 1, s.len() as int));
    } else {
        assert(s.subrange(i, s.len() as int) =~= Seq::<char>::empty());
    }
}

/// A string without `$` expands to itself, whatever the variables.
pub proof fn lemma_expand_without_dollar(s: Seq<char>, vars: Map<Seq<char>, Seq<char>>)
    requires
        forall|k: int| 0 <= k < s.len() ==> #[trigger] s[k] != '$',
    ensures
        spec_expand(s, vars) == s,
{
    lemma_no_dollar_from(s, 0, vars);
    assert(s.subrange(0, s.len() as int) =~= s);
}

/// `$$` expands to a single `$`, whatever the variables.
pub proof fn lemma_expand_dollar_dollar(vars: Map<Seq<char>, Seq<char>>)
    ensures
        spec_expand(seq!['$', '$'], vars) == seq!['$'],
{
    let s = seq!['$', '$'];
    assert(expand_from(s, 2, vars) == Seq::<char>::empty());
    assert(expand_from(s, 0, vars) == seq!['$'] + expand_from(s, 2, vars));
    assert(seq!['$'] + Seq::<char>::empty() =~= seq!['$']);
}

proof fn lemma_run_covers(s: Seq<char>, i: int, k: CharClass)
    requires
        0 <= i <= s.len(),
        forall|j: int| i <= j < s.len() ==> crate::text::in_class(k, #[trigger] s[j]),
    ensures
        run_end(s, i, k) == s.len(),
    decreases s.len() - i,
{
    if i < s.len() {
        lemma_run_covers(s, i + 1, k);
    }
}

/// `$` before an identifier expands to the identifier's value, and to
/// nothing where it has none.
pub proof fn lemma_expand_name(name: Seq<char>, vars: Map<Seq<char>, Seq<char>>)
    requires
        is_identifier(name),
    ensures
        spec_expand(seq!['$'] + name, vars) == if vars.contains_key(name) {
            vars[name]
        } else {
            Seq::empty()
        },
{
    let s = seq!['$'] + name;
    assert(s[1] == name[0]);
    assert forall|j: int| 1 <= j < s.len() implies crate::text::in_class(
        CharClass::Ident,
        #[trigger] s[j],
    ) by {
        assert(s[j] == name[j - 1]);
    }
    lemma_run_covers(s, 1, CharClass::Ident);
    assert(s.subrange(1, s.len() as int) =~= name);
    assert(expand_from(s, s.len() as int, vars) == Seq::<char>::empty());
    assert(lookup(vars, name) + Seq::<char>::empty() =~= lookup(vars, name));
}

/// `${`, a name without `}`, and `}` expand to the name's value, and to
/// nothing where it has none.
pub proof fn lemma_expand_braced(name: Seq<char>, vars: Map<Seq<char>, Seq<char>>)
    requires
        forall|i: int| 0 <= i < name.len() ==> #[trigger] name[i] != '}',
    ensures
        spec_expand(seq!['$', '{'] + name + seq!['}'], vars) == lookup(vars, name),
{
    let s = seq!['$', '{'] + name + seq!['}'];
    let k = CharClass::Until('}');
    let end = s.len() - 1;
    assert(s[end] == '}');
    assert forall|j: int| 2 <= j < end implies crate::text::in_class(k, #[trigger] s[j]) by {
        assert(s[j] == name[j - 2]);
    }
    lemma_run_end(s, 2, k);
    let j = run_end(s, 2, k);
    if j < end {
        assert(crate::text::in_class(k, s[j]));
    }
    if j > end {
        assert(crate::text::in_class(k, s[end]));
    }
    assert(s.subrange(2, end) =~= name);
    assert(expand_from(s, s.len() as int, vars) == Seq::<char>::empty());
    assert(lookup(vars, name) + Seq::<char>::empty() =~= lookup(vars, name));
}

/// The expansion of `s` under `vars`.
pub fn expand_chars(s: &Vec<char>, vars: &StrMap) -> (out: Vec<char>)
    requires
        vars.wf(),
    ensures
        out@ == spec_expand(s@, vars@),
{
    let n = s.len();
    let mut out: Vec<char> = Vec::new();
    let mut i: usize = 0;
    while i < n
        invariant
            0 <= i <= n == s.len(),
            vars.wf(),
            spec_expand(s@, vars@) == out@ + expand_from(s@, i as int, vars@),
        decreases n - i,
    {
        let ghost before = out@;
        let ghost rest = expand_from(s@, i as int, vars@);
        let c = s[i];
        if c != '$' {
            out.push(c);
            i += 1;
            assert(out@ + expand_from(s@, i as int, vars@) =~= before + rest);
        } else if i + 1 < n && s[i + 1] == '$' {
            out.push('$');
            i += 2;
            assert(out@ + expand_from(s@, i as int, vars@) =~= before + rest);
        } else if i + 1 < n && s[i + 1] == '{' {
            let j = scan(s, i + 2, CharClass::Until('}'));
            let name = substring(s, i + 2, j);
            match vars.get(name.as_str()) {
                Some(v) => {
                    push_str(&mut out, v.as_str());
                },
                None => {},
            }
            assert(out@ =~= before + lookup(vars@, s@.subrange(i + 2, j as int)));
            i = if j < n {
                j + 1
            } else {
                j
            };
            assert(out@ + expand_from(s@, i as int, vars@) =~= before + rest);
        } else if i + 1 < n && ident_start(s[i + 1]) {
            let j = scan(s, i + 1, CharClass::Ident);
            proof {
                lemma_run_end_advances(s@, i + 1, CharClass::Ident);
            }
            let name = substring(s, i + 1, j);
            match vars.get(name.as_str()) {
                Some(v) => {
                    push_str(&mut out, v.as_str());
                },
                None => {},
            }
            assert(out@ =~= before + lookup(vars@, s@.subrange(i + 1, j as int)));
            i = j;
            assert(out@ + expand_from(s@, i as int, vars@) =~= before + rest);
        } else {
            out.push('$');
            i += 1;
            assert(out@ + expand_from(s@, i as int, vars@) =~= before + rest);
        }
    }
    assert(out@ + Seq::<char>::empty() =~= out@);
    out
}

/// `input` with every variable reference replaced by its value in `vars`.
pub fn expand_vars(input: &str, vars: &StrMap) -> (r: String)
    requires
        vars.wf(),
    ensures
        r@ == spec_expand(input@, vars@),
{
    let s = chars_of(input);
    let out = expand_chars(&s, vars);
    string_of(&out)
}

} // verus!
