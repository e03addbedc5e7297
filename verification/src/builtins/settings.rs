//! `set`: options, positional parameters, and the list of variables.

use crate::ast::{lemma_view_seq_push, view_seq};
use crate::builtins::{Line, LineView};
use crate::state::{
    all_options, all_options_spec, lemma_option_names_differ, option_by_char, option_by_name,
    option_name,
    spec_option_for_char, spec_option_name, ShellOption, ShellOptions,
};
use crate::strmap::StrMap;
use crate::text::{
    chars_of, decimal, is_space, push_decimal, push_str, space, string_of,
};
use vstd::prelude::*;

verus! {

/// Whether `c` makes quotes necessary around a value that holds it.
pub open spec fn needs_quote(c: char) -> bool {
    is_space(c) || c == '"' || c == '\'' || c == '\\' || c == '$' || c == '`' || c == '!' || c
        == '#' || c == '&' || c == '|' || c == ';' || c == '(' || c == ')' || c == '{' || c == '}'
}

/// Whether a character of `s` makes quotes necessary.
pub open spec fn any_needs_quote(s: Seq<char>) -> bool {
    exists|i: int| 0 <= i < s.len() && needs_quote(#[trigger] s[i])
}

/// `s` with every single quote written as `'\''`.
pub open spec fn escaped(s: Seq<char>) -> Seq<char>
    decreases s.len(),
{
    if s.len() == 0 {
        Seq::empty()
    } else if s.last() == '\'' {
        escaped(s.drop_last()) + seq!['\'', '\\', '\'', '\'']
    } else {
        escaped(s.drop_last()).push(s.last())
    }
}

/// `s` as it can be typed back in: `''` for the empty string, `s` itself
/// where nothing in it needs a quote, else `s` in single quotes.
pub open spec fn spec_shell_quote(s: Seq<char>) -> Seq<char> {
    if s.len() == 0 {
        seq!['\'', '\'']
    } else if any_needs_quote(s) {
        seq!['\''] + escaped(s) + seq!['\'']
    } else {
        s
    }
}

/// `s` as it can be typed back in.
pub fn shell_quote(s: &str) -> (r: String)
    ensures
        r@ == spec_shell_quote(s@),
{
    let v = chars_of(s);
    let mut out: Vec<char> = Vec::new();
    if v.len() == 0 {
        out.push('\'');
        out.push('\'');
        assert(out@ =~= seq!['\'', '\'']);
        return string_of(&out);
    }
    let mut needs = false;
    let mut i: usize = 0;
    out.push('\'');
    assert(v@.take(0) =~= Seq::<char>::empty());
    assert(out@ =~= seq!['\''] + escaped(v@.take(0)));
    while i < v.len()
        invariant
            0 <= i <= v.len(),
            v@ == s@,
            out@ == seq!['\''] + escaped(v@.take(i as int)),
            needs == any_needs_quote(v@.take(i as int)),
        decreases v.len() - i,
    {
        let c = v[i];
        let ghost before = v@.take(i as int);
        let ghost now = v@.take(i + 1);
        proof {
            assert(now.drop_last() =~= before);
            assert(now.last() == c);
        }
        let q = space(c) || c == '"' || c == '\'' || c == '\\' || c == '$' || c == '`' || c == '!'
            || c == '#' || c == '&' || c == '|' || c == ';' || c == '(' || c == ')' || c == '{'
            || c == '}';
        proof {
            if needs {
                let k = choose|k: int| 0 <= k < before.len() && needs_quote(#[trigger] before[k]);
                assert(now[k] == before[k]);
            }
            if q {
                assert(needs_quote(now[i as int]));
            }
            if any_needs_quote(now) && !q {
                let k = choose|k: int| 0 <= k < now.len() && needs_quote(#[trigger] now[k]);
                assert(before[k] == now[k]);
            }
        }
        needs = needs || q;
        if c == '\'' {
            out.push('\'');
            out.push('\\');
            out.push('\'');
            out.push('\'');
            assert(out@ =~= seq!['\''] + (escaped(before) + seq!['\'', '\\', '\'', '\'']));
        } else {
            out.push(c);
            assert(out@ =~= seq!['\''] + escaped(before).push(c));
        }
        i += 1;
    }
    assert(v@.take(i as int) =~= v@);
    if needs {
        out.push('\'');
        assert(out@ =~= seq!['\''] + escaped(v@) + seq!['\'']);
        string_of(&out)
    } else {
        s.to_owned()
    }
}

/// The name of a positional parameter: decimal digits, the first not `0`.
pub open spec fn is_positional(k: Seq<char>) -> bool {
    &&& k.len() > 0
    &&& k[0] != '0'
    &&& forall|i: int| 0 <= i < k.len() ==> crate::text::is_ascii_digit(#[trigger] k[i])
}

/// `m` with the first `n` of `params` bound to the names `1` to `n`.
pub open spec fn with_params(m: Map<Seq<char>, Seq<char>>, params: Seq<Seq<char>>, n: int) -> Map<
    Seq<char>,
    Seq<char>,
>
    decreases n,
{
    if n <= 0 || n > params.len() {
        m
    } else {
        with_params(m, params, n - 1).insert(decimal(n as nat), params[n - 1])
    }
}

/// The variables after the positional parameters have been set to
/// `params`: the parameters that there were and their count are unbound,
/// each of `params` is bound to its position, counted from 1, and `#` to
/// their number.
pub open spec fn spec_positional(vars: Map<Seq<char>, Seq<char>>, params: Seq<Seq<char>>) -> Map<
    Seq<char>,
    Seq<char>,
> {
    with_params(
        vars.remove_keys(Set::new(|k: Seq<char>| is_positional(k) || k == "#"@)),
        params,
        params.len() as int,
    ).insert("#"@, decimal(params.len()))
}

fn positional_name(k: &str) -> (r: bool)
    ensures
        r == is_positional(k@),
{
    let v = chars_of(k);
    if v.len() == 0 || v[0] == '0' {
        return false;
    }
    let mut i: usize = 0;
    while i < v.len()
        invariant
            0 <= i <= v.len(),
            v@ == k@,
            forall|j: int| 0 <= j < i ==> crate::text::is_ascii_digit(#[trigger] v[j]),
        decreases v.len() - i,
    {
        let c = v[i];
        if !('0' <= c && c <= '9') {
            return false;
        }
        i += 1;
    }
    true
}

/// Sets the positional parameters to `params`.
pub fn set_positional_params(params: &[String], vars: &mut StrMap)
    requires
        old(vars).wf(),
    ensures
        final(vars).wf(),
        final(vars)@ == spec_positional(old(vars)@, view_seq(params@)),
{
    proof {
        reveal_strlit("#");
    }
    let ghost gone = Set::new(|k: Seq<char>| is_positional(k) || k == "#"@);
    let ghost before = vars@;
    let listed = vars.to_vec();
    proof {
        old(vars).lemma_pairs();
    }
    let mut i: usize = 0;
    // Every name listed before `i` that is to go is gone, and nothing else.
    while i < listed.len()
        invariant
            0 <= i <= listed.len(),
            vars.wf(),
            before == old(vars)@,
            gone == Set::new(|k: Seq<char>| is_positional(k) || k == "#"@),
            view_seq(listed@) == old(vars).pairs(),
            forall|k: Seq<char>|
                old(vars)@.contains_key(k) ==> exists|j: int|
                    0 <= j < old(vars).pairs().len() && #[trigger] old(vars).pairs()[j].0 == k,
            forall|k: Seq<char>| #[trigger]
                vars@.contains_key(k) ==> before.contains_key(k) && vars@[k] == before[k],
            forall|k: Seq<char>|
                before.contains_key(k) && !gone.contains(k) ==> #[trigger] vars@.contains_key(k),
            forall|j: int|
                0 <= j < i && gone.contains(old(vars).pairs()[j].0) ==> !vars@.contains_key(
                    #[trigger] old(vars).pairs()[j].0,
                ),
        decreases listed.len() - i,
    {
        let name = listed[i].0.as_str();
        assert(view_seq(listed@)[i as int] == listed[i as int]@);
        assert(name@ == old(vars).pairs()[i as int].0);
        if positional_name(name) || name.eq("#") {
            vars.remove(name);
        }
        i += 1;
    }
    proof {
        assert(vars@ =~= before.remove_keys(gone)) by {
            assert forall|k: Seq<char>| vars@.contains_key(k) == before.remove_keys(
                gone,
            ).contains_key(k) by {
                if before.contains_key(k) && gone.contains(k) {
                    let j = choose|j: int|
                        0 <= j < old(vars).pairs().len() && #[trigger] old(vars).pairs()[j].0 == k;
                    assert(!vars@.contains_key(old(vars).pairs()[j].0));
                }
            }
        }
    }
    let ghost cleared = vars@;
    let ghost ps = view_seq(params@);
    let mut n: usize = 0;
    while n < params.len()
        invariant
            0 <= n <= params.len(),
            vars.wf(),
            ps == view_seq(params@),
            vars@ == with_params(cleared, ps, n as int),
        decreases params.len() - n,
    {
        let mut key: Vec<char> = Vec::new();
        push_decimal(&mut key, (n + 1) as u64);
        assert(key@ =~= decimal((n + 1) as nat));
        let name = string_of(&key);
        assert(ps[n as int] == params[n as int]@);
        vars.insert(name.as_str(), params[n].as_str());
        n += 1;
    }
    let mut count: Vec<char> = Vec::new();
    push_decimal(&mut count, params.len() as u64);
    assert(count@ =~= decimal(params.len() as nat));
    let value = string_of(&count);
    vars.insert("#", value.as_str());
}

/// What `set` has done.
pub struct SetModel {
    pub options: ShellOptions,
    pub vars: Map<Seq<char>, Seq<char>>,
    pub lines: Seq<LineView>,
    pub code: i32,
}

/// The number of spaces behind an option name of `len` characters in the
/// table of options: what brings the status to the seventeenth column, and
/// one at least.
pub open spec fn pad_of(len: nat) -> nat {
    if len < 15 {
        (16 - len) as nat
    } else {
        1
    }
}

/// The line that shows an option and whether it is switched on.
pub open spec fn option_row(o: ShellOption, on: bool) -> LineView {
    LineView::Out(
        spec_option_name(o) + Seq::new(pad_of(spec_option_name(o).len()), |i: int| ' ') + (if on {
            "on"@
        } else {
            "off"@
        }),
    )
}

/// The line that switches an option to what it is.
pub open spec fn option_command(o: ShellOption, on: bool) -> LineView {
    LineView::Out(
        (if on {
            "set -o "@
        } else {
            "set +o "@
        }) + spec_option_name(o),
    )
}

/// The lines that show every option, as a table or as commands.
pub open spec fn option_lines(options: ShellOptions, commands: bool) -> Seq<LineView> {
    Seq::new(
        all_options_spec().len(),
        |i: int|
            if commands {
                option_command(all_options_spec()[i], options.has(all_options_spec()[i]))
            } else {
                option_row(all_options_spec()[i], options.has(all_options_spec()[i]))
            },
    )
}

/// The lines that show the variables `pairs`.
pub open spec fn variable_lines(pairs: Seq<(Seq<char>, Seq<char>)>) -> Seq<LineView> {
    Seq::new(
        pairs.len(),
        |i: int| LineView::Out(pairs[i].0 + seq!['='] + spec_shell_quote(pairs[i].1)),
    )
}

/// The options after the short flags `flags[j..]` have been applied in
/// order, `Err` with the first character that is no flag.
pub open spec fn flags_from(flags: Seq<char>, j: int, options: ShellOptions, enable: bool) -> (
    ShellOptions,
    Option<char>,
)
    decreases flags.len() - j,
{
    if j < 0 || j >= flags.len() {
        (options, None)
    } else {
        match spec_option_for_char(flags[j]) {
            Some(o) => flags_from(flags, j + 1, options.with(o, enable), enable),
            None => (options, Some(flags[j])),
        }
    }
}

/// What `set` says of an option name that it does not know.
pub open spec fn bad_option_line(name: Seq<char>) -> LineView {
    LineView::Diag("cerf: set: unrecognised option: "@ + name)
}

/// What `set` says of a short flag that it does not know.
pub open spec fn bad_flag_line(c: char) -> LineView {
    LineView::Diag("cerf: set: invalid option: -"@.push(c))
}

/// Whether `arg` is a group of short flags: `-` or `+`, and at least one
/// more character that for `-` is no second `-`.
pub open spec fn is_flag_group(arg: Seq<char>) -> bool {
    arg.len() > 1 && ((arg[0] == '-' && arg[1] != '-') || arg[0] == '+')
}

/// What `set` does with `args[i..]`, given the options and variables as
/// the arguments before have left them.
///
/// `--` and any argument that is no option make the rest the positional
/// parameters. `-o NAME` and `+o NAME` switch an option on and off; `-o`
/// and `+o` at the end show the options. A group of short flags switches
/// each of its options. An unknown option ends the command with status 1.
pub open spec fn set_from(
    args: Seq<Seq<char>>,
    i: int,
    options: ShellOptions,
    vars: Map<Seq<char>, Seq<char>>,
) -> SetModel
    decreases args.len() - i,
{
    if i < 0 || i >= args.len() {
        SetModel { options, vars, lines: Seq::empty(), code: 0 }
    } else if args[i] == "--"@ {
        SetModel {
            options,
            vars: spec_positional(vars, args.skip(i + 1)),
            lines: Seq::empty(),
            code: 0,
        }
    } else if args[i] == "-o"@ || args[i] == "+o"@ {
        let enable = args[i] == "-o"@;
        if i + 1 < args.len() {
            if exists|o: ShellOption| spec_option_name(o) == args[i + 1] {
                let o = choose|o: ShellOption| spec_option_name(o) == args[i + 1];
                set_from(args, i + 2, options.with(o, enable), vars)
            } else {
                SetModel { options, vars, lines: seq![bad_option_line(args[i + 1])], code: 1 }
            }
        } else {
            SetModel { options, vars, lines: option_lines(options, !enable), code: 0 }
        }
    } else if is_flag_group(args[i]) {
        let (after, bad) = flags_from(args[i], 1, options, args[i][0] == '-');
        match bad {
            Some(c) => SetModel { options: after, vars, lines: seq![bad_flag_line(c)], code: 1 },
            None => set_from(args, i + 1, after, vars),
        }
    } else {
        SetModel { options, vars: spec_positional(vars, args.skip(i)), lines: Seq::empty(), code: 0 }
    }
}

fn option_line(o: ShellOption, on: bool, commands: bool) -> (r: Line)
    ensures
        r@ == if commands {
            option_command(o, on)
        } else {
            option_row(o, on)
        },
{
    let name = option_name(o);
    let mut out: Vec<char> = Vec::new();
    if commands {
        push_str(
            &mut out,
            if on {
                "set -o "
            } else {
                "set +o "
            },
        );
        push_str(&mut out, name);
    } else {
        push_str(&mut out, name);
        let len = name.unicode_len();
        let pad: usize = if len < 15 {
            16 - len
        } else {
            1
        };
        let ghost head = out@;
        let mut k: usize = 0;
        while k < pad
            invariant
                0 <= k <= pad,
                out@ == head + Seq::new(k as nat, |i: int| ' '),
            decreases pad - k,
        {
            out.push(' ');
            assert(out@ =~= head + Seq::new((k + 1) as nat, |i: int| ' '));
            k += 1;
        }
        push_str(
            &mut out,
            if on {
                "on"
            } else {
                "off"
            },
        );
    }
    Line::Out(string_of(&out))
}

fn show_options(options: &ShellOptions, commands: bool) -> (r: Vec<Line>)
    ensures
        view_seq(r@) == option_lines(*options, commands),
{
    let all = all_options();
    let mut lines: Vec<Line> = Vec::new();
    let mut i: usize = 0;
    while i < all.len()
        invariant
            0 <= i <= all.len(),
            all@ == all_options_spec(),
            lines.len() == i,
            forall|k: int|
                0 <= k < i ==> (#[trigger] lines[k])@ == option_lines(*options, commands)[k],
        decreases all.len() - i,
    {
        lines.push(option_line(all[i], options.contains(all[i]), commands));
        i += 1;
    }
    assert(view_seq(lines@) =~= option_lines(*options, commands));
    lines
}

fn show_variables(vars: &StrMap) -> (r: Vec<Line>)
    requires
        vars.wf(),
    ensures
        view_seq(r@) == variable_lines(vars.pairs()),
{
    let n = vars.len();
    let mut lines: Vec<Line> = Vec::new();
    let mut i: usize = 0;
    while i < n
        invariant
            0 <= i <= n == vars.pairs().len(),
            lines.len() == i,
            forall|k: int| 0 <= k < i ==> (#[trigger] lines[k])@ == variable_lines(vars.pairs())[k],
        decreases n - i,
    {
        let (name, value) = vars.entry(i);
        let mut out: Vec<char> = Vec::new();
        push_str(&mut out, name.as_str());
        out.push('=');
        let quoted = shell_quote(value.as_str());
        push_str(&mut out, quoted.as_str());
        assert(out@ =~= name@ + seq!['='] + spec_shell_quote(value@));
        lines.push(Line::Out(string_of(&out)));
        i += 1;
    }
    assert(view_seq(lines@) =~= variable_lines(vars.pairs()));
    lines
}

fn apply_flags(flags: &Vec<char>, options: &mut ShellOptions, enable: bool) -> (bad: Option<char>)
    requires
        flags.len() >= 1,
    ensures
        (*final(options), bad) == flags_from(flags@, 1, *old(options), enable),
{
    let mut j: usize = 1;
    while j < flags.len()
        invariant
            1 <= j <= flags.len(),
            flags_from(flags@, 1, *old(options), enable) == flags_from(
                flags@,
                j as int,
                *options,
                enable,
            ),
        decreases flags.len() - j,
    {
        match option_by_char(flags[j]) {
            Some(o) => {
                options.switch(o, enable);
            },
            None => {
                return Some(flags[j]);
            },
        }
        j += 1;
    }
    None
}

fn one_line(line: Line) -> (r: Vec<Line>)
    ensures
        view_seq(r@) == seq![line@],
{
    let mut lines: Vec<Line> = Vec::new();
    proof {
        lemma_view_seq_push(lines@, line);
        assert(view_seq(Seq::<Line>::empty()).push(line@) =~= seq![line@]);
    }
    lines.push(line);
    lines
}

/// What one step of `set` leads to.
enum Step {
    /// Go on with the argument at this index.
    Next(usize),
    /// The command is over, with this status and these lines.
    Stop(i32, Vec<Line>),
}

/// Deals with `-o` or `+o` at index `i`.
fn set_named(args: &[String], i: usize, enable: bool, options: &mut ShellOptions) -> (r: Step)
    requires
        i < args.len(),
    ensures
        match r {
            Step::Next(j) => {
                &&& j == i + 2
                &&& i + 1 < args.len()
                &&& exists|o: ShellOption| spec_option_name(o) == view_seq(args@)[i + 1]
                &&& *final(options) == old(options).with(
                    choose|o: ShellOption| spec_option_name(o) == view_seq(args@)[i + 1],
                    enable,
                )
            },
            Step::Stop(code, lines) => {
                &&& *final(options) == *old(options)
                &&& if i + 1 < args.len() {
                    &&& !(exists|o: ShellOption| spec_option_name(o) == view_seq(args@)[i + 1])
                    &&& code == 1
                    &&& view_seq(lines@) == seq![bad_option_line(view_seq(args@)[i + 1])]
                } else {
                    &&& code == 0
                    &&& view_seq(lines@) == option_lines(*old(options), !enable)
                }
            },
        },
{
    if i + 1 < args.len() {
        let name = args[i + 1].as_str();
        assert(view_seq(args@)[i + 1] == name@);
        match option_by_name(name) {
            Some(o) => {
                proof {
                    lemma_option_names_differ();
                    let other = choose|x: ShellOption| spec_option_name(x) == name@;
                    assert(spec_option_name(other) == spec_option_name(o));
                }
                options.switch(o, enable);
                Step::Next(i + 2)
            },
            None => {
                let mut out: Vec<char> = Vec::new();
                push_str(&mut out, "cerf: set: unrecognised option: ");
                push_str(&mut out, name);
                Step::Stop(1, one_line(Line::Diag(string_of(&out))))
            },
        }
    } else {
        Step::Stop(0, show_options(options, !enable))
    }
}

/// Deals with the argument at index `i`.
fn set_step(args: &[String], i: usize, options: &mut ShellOptions, vars: &mut StrMap) -> (r: Step)
    requires
        i < args.len(),
        old(vars).wf(),
    ensures
        final(vars).wf(),
        match r {
            Step::Next(j) => i < j <= args.len() && set_from(
                view_seq(args@),
                i as int,
                *old(options),
                old(vars)@,
            ) == set_from(view_seq(args@), j as int, *final(options), final(vars)@),
            Step::Stop(code, lines) => set_from(
                view_seq(args@),
                i as int,
                *old(options),
                old(vars)@,
            ) == (SetModel {
                options: *final(options),
                vars: final(vars)@,
                lines: view_seq(lines@),
                code,
            }),
        },
{
    let ghost all = view_seq(args@);
    let n = args.len();
    proof {
        reveal_strlit("--");
        reveal_strlit("-o");
        reveal_strlit("+o");
    }
    let arg = args[i].as_str();
    assert(all[i as int] == arg@);
    if arg.eq("--") {
        let rest = vstd::slice::slice_subrange(args, i + 1, n);
        assert(view_seq(rest@) =~= all.skip(i + 1));
        set_positional_params(rest, vars);
        let none: Vec<Line> = Vec::new();
        assert(view_seq(none@) =~= Seq::<LineView>::empty());
        return Step::Stop(0, none);
    }
    let minus = arg.eq("-o");
    if minus || arg.eq("+o") {
        return set_named(args, i, minus, options);
    }
    let a = chars_of(arg);
    if a.len() > 1 && ((a[0] == '-' && a[1] != '-') || a[0] == '+') {
        return match apply_flags(&a, options, a[0] == '-') {
            Some(c) => {
                let mut out: Vec<char> = Vec::new();
                push_str(&mut out, "cerf: set: invalid option: -");
                out.push(c);
                Step::Stop(1, one_line(Line::Diag(string_of(&out))))
            },
            None => Step::Next(i + 1),
        };
    }
    let rest = vstd::slice::slice_subrange(args, i, n);
    assert(view_seq(rest@) =~= all.skip(i as int));
    set_positional_params(rest, vars);
    let none: Vec<Line> = Vec::new();
    assert(view_seq(none@) =~= Seq::<LineView>::empty());
    Step::Stop(0, none)
}

/// The builtin `set`. Without arguments it shows the variables, by name,
/// and changes nothing.
pub fn set(args: &[String], options: &mut ShellOptions, vars: &mut StrMap) -> (r: (i32, Vec<Line>))
    requires
        old(vars).wf(),
    ensures
        final(vars).wf(),
        ({
            let m = set_from(view_seq(args@), 0, *old(options), old(vars)@);
            &&& *final(options) == m.options
            &&& final(vars)@ == m.vars
            &&& r.0 == m.code
            &&& view_seq(r.1@) == if args.len() == 0 {
                variable_lines(old(vars).pairs())
            } else {
                m.lines
            }
        }),
{
    let ghost all = view_seq(args@);
    if args.len() == 0 {
        return (0, show_variables(vars));
    }
    let n = args.len();
    let mut i: usize = 0;
    while i < n
        invariant
            0 <= i <= n == args.len(),
            all == view_seq(args@),
            vars.wf(),
            set_from(all, 0, *old(options), old(vars)@) == set_from(all, i as int, *options, vars@),
        decreases n - i,
    {
        match set_step(args, i, options, vars) {
            Step::Next(j) => {
                i = j;
            },
            Step::Stop(code, lines) => {
                return (code, lines);
            },
        }
    }
    let none: Vec<Line> = Vec::new();
    assert(view_seq(none@) =~= Seq::<LineView>::empty());
    (0, none)
}

} // verus!
