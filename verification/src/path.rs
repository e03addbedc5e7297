//! Paths as text: `~` expansion, logical normalization, and the places in
//! which an executable is looked for. Paths are `/`-separated; nothing here
//! touches the file system.

use crate::ast::{lemma_view_seq_push, view_seq};
use crate::text::{
    chars_of, lemma_run_end, lemma_run_end_advances, run_end, scan, string_of, CharClass,
};
use vstd::prelude::*;

verus! {

/// The name of the directory itself.
pub open spec fn dot() -> Seq<char> {
    seq!['.']
}

/// The name of the directory above.
pub open spec fn dotdot() -> Seq<char> {
    seq!['.', '.']
}

/// The components of `s` from index `i` on: the non-empty pieces between
/// separators.
pub open spec fn parts_from(s: Seq<char>, i: int) -> Seq<Seq<char>>
    decreases s.len() - i,
{
    if i < 0 || i > s.len() {
        Seq::empty()
    } else {
        let a = run_end(s, i, CharClass::Only('/'));
        if a >= s.len() {
            Seq::empty()
        } else {
            proof {
                lemma_run_end(s, i, CharClass::Only('/'));
                lemma_run_end_advances(s, a, CharClass::Until('/'));
            }
            let b = run_end(s, a, CharClass::Until('/'));
            seq![s.subrange(a, b)] + parts_from(s, b)
        }
    }
}

/// The components that are left after `part` is applied to `stack`: `.`
/// changes nothing; `..` removes the last component, stays put at the root,
/// and is kept where there is nothing to remove; any other name is added.
pub open spec fn step(stack: Seq<Seq<char>>, rooted: bool, part: Seq<char>) -> Seq<Seq<char>> {
    if part == dot() {
        stack
    } else if part == dotdot() {
        if stack.len() > 0 && stack.last() != dotdot() {
            stack.drop_last()
        } else if stack.len() == 0 && rooted {
            stack
        } else {
            stack.push(part)
        }
    } else {
        stack.push(part)
    }
}

/// The components that are left after all of `parts` are applied in order.
pub open spec fn resolve(parts: Seq<Seq<char>>, rooted: bool) -> Seq<Seq<char>>
    decreases parts.len(),
{
    if parts.len() == 0 {
        Seq::empty()
    } else {
        step(resolve(parts.drop_last(), rooted), rooted, parts.last())
    }
}

/// `parts` with a separator between each two.
pub open spec fn joined(parts: Seq<Seq<char>>) -> Seq<char>
    decreases parts.len(),
{
    if parts.len() == 0 {
        Seq::empty()
    } else if parts.len() == 1 {
        parts[0]
    } else {
        joined(parts.drop_last()) + seq!['/'] + parts.last()
    }
}

/// The path that a root flag and components spell; `.` where there is
/// neither root nor component.
pub open spec fn render(rooted: bool, stack: Seq<Seq<char>>) -> Seq<char> {
    if rooted {
        seq!['/'] + joined(stack)
    } else if stack.len() == 0 {
        dot()
    } else {
        joined(stack)
    }
}

/// Whether `s` starts at the root.
pub open spec fn is_rooted(s: Seq<char>) -> bool {
    s.len() > 0 && s[0] == '/'
}

/// `s` with `.` and `..` resolved and repeated separators dropped.
pub open spec fn spec_normalize(s: Seq<char>) -> Seq<char> {
    render(is_rooted(s), resolve(parts_from(s, 0), is_rooted(s)))
}

/// `rel` seen from `base`: `rel` itself where it starts at the root, else
/// `base`, a separator where `base` does not end with one, and `rel`.
pub open spec fn path_join(base: Seq<char>, rel: Seq<char>) -> Seq<char> {
    if is_rooted(rel) {
        rel
    } else if base.len() == 0 || base.last() == '/' {
        base + rel
    } else {
        base + seq!['/'] + rel
    }
}

/// Whether `p` is `~` followed by a separator.
pub open spec fn starts_with_home(p: Seq<char>) -> bool {
    p.len() >= 2 && p[0] == '~' && (p[1] == '/' || p[1] == '\\')
}

/// `p` with a leading `~` replaced by `home`, normalized. A lone `~` is
/// `home` as it stands. Without a home directory `~` is an ordinary name.
pub open spec fn spec_expand_home(p: Seq<char>, home: Option<Seq<char>>) -> Seq<char> {
    match home {
        Some(h) => if p == seq!['~'] {
            h
        } else if starts_with_home(p) {
            spec_normalize(path_join(h, p.skip(2)))
        } else {
            spec_normalize(p)
        },
        None => spec_normalize(p),
    }
}

fn is_dot(part: &Vec<char>) -> (r: bool)
    ensures
        r == (part@ == dot()),
{
    let r = part.len() == 1 && part[0] == '.';
    proof {
        if r {
            assert(part@ =~= dot());
        }
    }
    r
}

fn is_dotdot(part: &Vec<char>) -> (r: bool)
    ensures
        r == (part@ == dotdot()),
{
    let r = part.len() == 2 && part[0] == '.' && part[1] == '.';
    proof {
        if r {
            assert(part@ =~= dotdot());
        }
    }
    r
}

fn push_all(out: &mut Vec<char>, part: &Vec<char>)
    ensures
        final(out)@ == old(out)@ + part@,
{
    let mut k: usize = 0;
    while k < part.len()
        invariant
            0 <= k <= part.len(),
            out@ == old(out)@ + part@.take(k as int),
        decreases part.len() - k,
    {
        out.push(part[k]);
        assert(out@ =~= old(out)@ + part@.take(k + 1));
        k += 1;
    }
    assert(part@.take(k as int) =~= part@);
}

fn slice_of(v: &Vec<char>, from: usize, to: usize) -> (r: Vec<char>)
    requires
        from <= to <= v.len(),
    ensures
        r@ == v@.subrange(from as int, to as int),
{
    let mut r: Vec<char> = Vec::new();
    let mut k: usize = from;
    while k < to
        invariant
            from <= k <= to <= v.len(),
            r@ == v@.subrange(from as int, k as int),
        decreases to - k,
    {
        r.push(v[k]);
        k += 1;
    }
    r
}

/// The characters of the normalized form of `v`.
pub fn normalize_chars(v: &Vec<char>) -> (r: Vec<char>)
    ensures
        r@ == spec_normalize(v@),
{
    let n = v.len();
    let rooted = n > 0 && v[0] == '/';
    let mut stack: Vec<Vec<char>> = Vec::new();
    let ghost mut taken: Seq<Seq<char>> = Seq::empty();
    let mut cur: usize = 0;
    assert(view_seq(stack@) =~= resolve(taken, rooted));
    assert(taken + parts_from(v@, 0) =~= parts_from(v@, 0));
    let mut a = scan(v, cur, CharClass::Only('/'));
    while a < n
        invariant
            cur <= a <= v.len() == n,
            a == run_end(v@, cur as int, CharClass::Only('/')),
            rooted == is_rooted(v@),
            parts_from(v@, 0) == taken + parts_from(v@, cur as int),
            view_seq(stack@) == resolve(taken, rooted),
        decreases v.len() - cur,
    {
        proof {
            lemma_run_end(v@, cur as int, CharClass::Only('/'));
            lemma_run_end_advances(v@, a as int, CharClass::Until('/'));
        }
        let b = scan(v, a, CharClass::Until('/'));
        let part = slice_of(v, a, b);
        proof {
            let rest = parts_from(v@, b as int);
            assert(parts_from(v@, cur as int) == seq![part@] + rest);
            assert(taken.push(part@) + rest =~= taken + (seq![part@] + rest));
            assert(taken.push(part@).drop_last() =~= taken);
        }
        let ghost before = view_seq(stack@);
        if is_dot(&part) {
        } else if is_dotdot(&part) {
            let depth = stack.len();
            if depth > 0 && !is_dotdot(&stack[depth - 1]) {
                assert(before.last() == stack[depth - 1]@);
                stack.pop();
                assert(view_seq(stack@) =~= before.drop_last());
            } else if depth == 0 && rooted {
            } else {
                proof {
                    if depth > 0 {
                        assert(before.last() == stack[depth - 1]@);
                    }
                    lemma_view_seq_push(stack@, part);
                }
                stack.push(part);
            }
        } else {
            proof {
                lemma_view_seq_push(stack@, part);
            }
            stack.push(part);
        }
        proof {
            taken = taken.push(part@);
        }
        cur = b;
        a = scan(v, cur, CharClass::Only('/'));
    }
    proof {
        assert(parts_from(v@, cur as int) =~= Seq::<Seq<char>>::empty());
        assert(taken + Seq::<Seq<char>>::empty() =~= taken);
    }
    let ghost parts = view_seq(stack@);
    let mut out: Vec<char> = Vec::new();
    if rooted {
        out.push('/');
    } else if stack.len() == 0 {
        out.push('.');
        assert(out@ =~= dot());
        return out;
    }
    let ghost head = out@;
    let mut k: usize = 0;
    assert(out@ =~= head + joined(parts.take(0)));
    while k < stack.len()
        invariant
            0 <= k <= stack.len(),
            parts == view_seq(stack@),
            out@ == head + joined(parts.take(k as int)),
        decreases stack.len() - k,
    {
        proof {
            assert(parts.take(k + 1).drop_last() =~= parts.take(k as int));
            assert(parts.take(k + 1).last() == stack[k as int]@);
        }
        if k > 0 {
            out.push('/');
        }
        push_all(&mut out, &stack[k]);
        proof {
            if k > 0 {
                assert(out@ =~= head + (joined(parts.take(k as int)) + seq!['/'] + stack[k as int]@));
            } else {
                assert(parts.take(1)[0] == stack[0]@);
                assert(joined(parts.take(0)) =~= Seq::<char>::empty());
                assert(out@ =~= head + stack[0]@);
            }
        }
        k += 1;
    }
    assert(parts.take(k as int) =~= parts);
    proof {
        if rooted {
            assert(head =~= seq!['/']);
        } else {
            assert(head + joined(parts) =~= joined(parts));
        }
    }
    out
}

/// `path` with `.` and `..` resolved, without looking at the file system.
pub fn normalize_path(path: &str) -> (r: String)
    ensures
        r@ == spec_normalize(path@),
{
    let v = chars_of(path);
    let out = normalize_chars(&v);
    string_of(&out)
}

/// `rel` seen from `base`.
pub fn join_chars(base: &Vec<char>, rel: &Vec<char>) -> (r: Vec<char>)
    ensures
        r@ == path_join(base@, rel@),
{
    let mut out: Vec<char> = Vec::new();
    if rel.len() > 0 && rel[0] == '/' {
        push_all(&mut out, rel);
        assert(out@ =~= rel@);
        return out;
    }
    push_all(&mut out, base);
    if !(base.len() == 0 || base[base.len() - 1] == '/') {
        out.push('/');
    }
    push_all(&mut out, rel);
    assert(out@ =~= path_join(base@, rel@));
    out
}

/// `path_str` with a leading `~` replaced by `home`; normalized, but for a
/// lone `~`, which gives `home` as it stands.
pub fn expand_home_with(path_str: &str, home: Option<&str>) -> (r: String)
    ensures
        r@ == spec_expand_home(
            path_str@,
            match home {
                Some(h) => Some(h@),
                None => None,
            },
        ),
{
    let p = chars_of(path_str);
    match home {
        Some(h) => {
            if p.len() == 1 && p[0] == '~' {
                assert(p@ =~= seq!['~']);
                h.to_owned()
            } else if p.len() >= 2 && p[0] == '~' && (p[1] == '/' || p[1] == '\\') {
                let rest = slice_of(&p, 2, p.len());
                assert(rest@ =~= p@.skip(2));
                let base = chars_of(h);
                let full = join_chars(&base, &rest);
                string_of(&normalize_chars(&full))
            } else {
                string_of(&normalize_chars(&p))
            }
        },
        None => string_of(&normalize_chars(&p)),
    }
}

/// The home directory of the user, as `dirs::home_dir` finds it: from the
/// environment or the user database. Nothing is claimed of the answer.
#[verifier::external_body]
fn home_dir() -> (home: Option<String>) {
    match dirs::home_dir() {
        Some(path) => Some(path.to_string_lossy().into_owned()),
        None => None,
    }
}

/// `path_str` with a leading `~` replaced by the user's home directory.
///
/// The result is what `spec_expand_home` gives for the home directory that
/// the system reports, or for none where it reports none.
pub fn expand_home(path_str: &str) -> (r: String)
    ensures
        exists|home: Option<Seq<char>>| r@ == #[trigger] spec_expand_home(path_str@, home),
{
    match home_dir() {
        Some(h) => {
            let r = expand_home_with(path_str, Some(h.as_str()));
            assert(r@ == spec_expand_home(path_str@, Some(h@)));
            r
        },
        None => {
            let r = expand_home_with(path_str, None);
            assert(r@ == spec_expand_home(path_str@, None));
            r
        },
    }
}

/// The fields of `s` from index `i` on, split at every `sep`. Empty fields
/// count: a list with `k` separators has `k + 1` fields.
pub open spec fn fields_from(s: Seq<char>, i: int, sep: char) -> Seq<Seq<char>>
    decreases s.len() - i,
{
    if i < 0 || i > s.len() {
        Seq::empty()
    } else {
        let j = run_end(s, i, CharClass::Until(sep));
        if j >= s.len() {
            seq![s.subrange(i, s.len() as int)]
        } else {
            proof {
                lemma_run_end(s, i, CharClass::Until(sep));
            }
            seq![s.subrange(i, j)] + fields_from(s, j + 1, sep)
        }
    }
}

/// Whether `s` holds a separator.
pub open spec fn has_separator(s: Seq<char>) -> bool {
    exists|i: int| 0 <= i < s.len() && #[trigger] s[i] == '/'
}

/// The paths at which an executable called `name` is looked for, in
/// order: the name itself, home-expanded, where it holds a separator; else
/// the name under each directory of the search path `dirs`, which is split
/// at `:`.
pub open spec fn spec_candidates(
    name: Seq<char>,
    dirs: Option<Seq<char>>,
    home: Option<Seq<char>>,
) -> Seq<Seq<char>> {
    if has_separator(name) {
        seq![spec_expand_home(name, home)]
    } else {
        match dirs {
            Some(d) => {
                let fields = fields_from(d, 0, ':');
                Seq::new(fields.len(), |i: int| path_join(fields[i], name))
            },
            None => Seq::empty(),
        }
    }
}

fn contains_separator(v: &Vec<char>) -> (r: bool)
    ensures
        r == has_separator(v@),
{
    let mut i: usize = 0;
    while i < v.len()
        invariant
            0 <= i <= v.len(),
            forall|k: int| 0 <= k < i ==> #[trigger] v[k] != '/',
        decreases v.len() - i,
    {
        if v[i] == '/' {
            return true;
        }
        i += 1;
    }
    false
}

/// The paths at which an executable called `name` is looked for, given the
/// search path and the home directory.
pub fn executable_candidates(name: &str, dirs: Option<&str>, home: Option<&str>) -> (r: Vec<
    String,
>)
    ensures
        view_seq(r@) == spec_candidates(
            name@,
            match dirs {
                Some(d) => Some(d@),
                None => None,
            },
            match home {
                Some(h) => Some(h@),
                None => None,
            },
        ),
{
    let n = chars_of(name);
    let mut out: Vec<String> = Vec::new();
    if contains_separator(&n) {
        let only = expand_home_with(name, home);
        proof {
            lemma_view_seq_push(out@, only);
            assert(view_seq(Seq::<String>::empty()).push(only@) =~= seq![only@]);
        }
        out.push(only);
        return out;
    }
    let d = match dirs {
        Some(d) => chars_of(d),
        None => {
            assert(view_seq(out@) =~= Seq::<Seq<char>>::empty());
            return out;
        },
    };
    let ghost mut taken: Seq<Seq<char>> = Seq::empty();
    let mut cur: usize = 0;
    assert(taken + fields_from(d@, 0, ':') =~= fields_from(d@, 0, ':'));
    loop
        invariant
            cur <= d.len(),
            n@ == name@,
            !has_separator(name@),
            dirs matches Some(x) && x@ == d@,
            fields_from(d@, 0, ':') == taken + fields_from(d@, cur as int, ':'),
            out.len() == taken.len(),
            forall|k: int| 0 <= k < out.len() ==> (#[trigger] out[k])@ == path_join(taken[k], name@),
        decreases d.len() - cur,
    {
        let j = scan(&d, cur, CharClass::Until(':'));
        let field = slice_of(&d, cur, j);
        let full = string_of(&join_chars(&field, &n));
        let ghost before = out@;
        let ghost old_taken = taken;
        out.push(full);
        proof {
            taken = taken.push(field@);
            assert forall|k: int| 0 <= k < out.len() implies (#[trigger] out[k])@ == path_join(
                taken[k],
                name@,
            ) by {
                if k < before.len() {
                    assert(out[k] == before[k]);
                    assert(taken[k] == old_taken[k]);
                }
            }
        }
        if j >= d.len() {
            proof {
                assert(fields_from(d@, cur as int, ':') == seq![field@]);
                assert(taken =~= fields_from(d@, 0, ':'));
                let want = spec_candidates(name@, Some(d@), None);
                assert(view_seq(out@).len() == want.len());
                assert forall|k: int| 0 <= k < want.len() implies view_seq(out@)[k] == want[k] by {
                    assert(view_seq(out@)[k] == out[k]@);
                }
                assert(view_seq(out@) =~= want);
            }
            return out;
        }
        proof {
            let rest = fields_from(d@, j + 1, ':');
            assert(fields_from(d@, cur as int, ':') == seq![field@] + rest);
            assert(old_taken.push(field@) + rest =~= old_taken + (seq![field@] + rest));
        }
        cur = j + 1;
    }
}

/// The first candidate that the probe found to be a file: the index of the
/// first `true` in `is_file`.
pub fn first_file(is_file: &Vec<bool>) -> (r: Option<usize>)
    ensures
        match r {
            Some(i) => i < is_file.len() && is_file[i as int] && forall|k: int|
                0 <= k < i ==> !is_file[k],
            None => forall|k: int| 0 <= k < is_file.len() ==> !is_file[k],
        },
{
    let mut i: usize = 0;
    while i < is_file.len()
        invariant
            0 <= i <= is_file.len(),
            forall|k: int| 0 <= k < i ==> !is_file[k],
        decreases is_file.len() - i,
    {
        if is_file[i] {
            return Some(i);
        }
        i += 1;
    }
    None
}

} // verus!
