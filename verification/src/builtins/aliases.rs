//! `alias` and `unalias`.

use crate::ast::{lemma_view_seq_push, view_seq};
use crate::builtins::{any_error, concat, status_of, text, Line, LineView};
use crate::registry::{find_command, is_builtin_name};
use crate::strmap::StrMap;
use crate::text::{chars_of, lemma_run_end, run_end, scan, substring, CharClass};
use vstd::prelude::*;

verus! {

/// The line that shows an alias.
pub open spec fn shown(name: Seq<char>, value: Seq<char>) -> LineView {
    LineView::Out(concat(seq!["alias "@, name, "='"@, value, "'"@]))
}

/// The lines that show the aliases `pairs`.
pub open spec fn shown_all(pairs: Seq<(Seq<char>, Seq<char>)>) -> Seq<LineView> {
    Seq::new(pairs.len(), |i: int| shown(pairs[i].0, pairs[i].1))
}

/// What one argument of `alias` does to the aliases: where it holds `=`, it
/// binds the name before the first `=` to what follows it, unless the name
/// is empty or the name of a builtin. Without `=` it changes nothing.
pub open spec fn alias_defines(arg: Seq<char>, aliases: Map<Seq<char>, Seq<char>>) -> Map<
    Seq<char>,
    Seq<char>,
> {
    let eq = run_end(arg, 0, CharClass::Until('='));
    if eq < arg.len() && eq > 0 && !is_builtin_name(arg.subrange(0, eq)) {
        aliases.insert(arg.subrange(0, eq), arg.subrange(eq + 1, arg.len() as int))
    } else {
        aliases
    }
}

/// What `alias` says of one argument: nothing of a definition that it
/// accepts, a complaint of one that it refuses, and of a name its alias, or
/// a complaint where it has none.
pub open spec fn alias_says(arg: Seq<char>, aliases: Map<Seq<char>, Seq<char>>) -> Seq<LineView> {
    let eq = run_end(arg, 0, CharClass::Until('='));
    if eq < arg.len() {
        if eq == 0 {
            seq![
                LineView::Diag(concat(seq!["cerf: alias: '"@, arg, "': invalid alias name"@])),
            ]
        } else if is_builtin_name(arg.subrange(0, eq)) {
            seq![
                LineView::Diag(
                    concat(
                        seq![
                            "cerf: alias: '"@,
                            arg.subrange(0, eq),
                            "': cannot override builtin command"@,
                        ],
                    ),
                ),
            ]
        } else {
            Seq::empty()
        }
    } else if aliases.contains_key(arg) {
        seq![shown(arg, aliases[arg])]
    } else {
        seq![LineView::Diag(concat(seq!["cerf: alias: "@, arg, ": not found"@]))]
    }
}

/// The aliases after `alias` has dealt with `args` in order.
pub open spec fn aliases_after(args: Seq<Seq<char>>, aliases: Map<Seq<char>, Seq<char>>) -> Map<
    Seq<char>,
    Seq<char>,
>
    decreases args.len(),
{
    if args.len() == 0 {
        aliases
    } else {
        alias_defines(args.last(), aliases_after(args.drop_last(), aliases))
    }
}

/// What `alias` says of `args` in order.
pub open spec fn alias_lines(args: Seq<Seq<char>>, aliases: Map<Seq<char>, Seq<char>>) -> Seq<
    LineView,
>
    decreases args.len(),
{
    if args.len() == 0 {
        Seq::empty()
    } else {
        alias_lines(args.drop_last(), aliases) + alias_says(
            args.last(),
            aliases_after(args.drop_last(), aliases),
        )
    }
}

fn show(name: &str, value: &str) -> (r: Line)
    ensures
        r@ == shown(name@, value@),
{
    let parts = ["alias ", name, "='", value, "'"];
    assert(view_seq(parts@) =~= seq!["alias "@, name@, "='"@, value@, "'"@]);
    Line::Out(text(&parts))
}

/// The builtin `alias`. Without arguments it shows every alias, by name.
/// With arguments it deals with each in order: `name=value` defines an
/// alias, `name` shows one. The exit status is 1 where it had to complain.
pub fn alias(args: &[String], aliases: &mut StrMap) -> (r: (i32, Vec<Line>))
    requires
        old(aliases).wf(),
    ensures
        final(aliases).wf(),
        final(aliases)@ == aliases_after(view_seq(args@), old(aliases)@),
        view_seq(r.1@) == if args.len() == 0 {
            shown_all(old(aliases).pairs())
        } else {
            alias_lines(view_seq(args@), old(aliases)@)
        },
        r.0 == status_of(view_seq(r.1@)),
{
    let mut lines: Vec<Line> = Vec::new();
    if args.len() == 0 {
        let n = aliases.len();
        let mut i: usize = 0;
        while i < n
            invariant
                0 <= i <= n == aliases.pairs().len(),
                aliases.wf(),
                aliases == old(aliases),
                lines.len() == i,
                forall|k: int|
                    0 <= k < i ==> (#[trigger] lines[k])@ == shown(
                        aliases.pairs()[k].0,
                        aliases.pairs()[k].1,
                    ),
            decreases n - i,
        {
            let (name, value) = aliases.entry(i);
            lines.push(show(name.as_str(), value.as_str()));
            i += 1;
        }
        assert(view_seq(lines@) =~= shown_all(aliases.pairs()));
        assert(!any_error(view_seq(lines@)));
        assert(view_seq(args@) =~= Seq::<Seq<char>>::empty());
        return (0, lines);
    }
    let ghost all = view_seq(args@);
    let ghost before = aliases@;
    let mut failed = false;
    let mut i: usize = 0;
    assert(all.take(0) =~= Seq::<Seq<char>>::empty());
    assert(view_seq(lines@) =~= alias_lines(all.take(0), before));
    while i < args.len()
        invariant
            0 <= i <= args.len(),
            all == view_seq(args@),
            before == old(aliases)@,
            aliases.wf(),
            aliases@ == aliases_after(all.take(i as int), before),
            view_seq(lines@) == alias_lines(all.take(i as int), before),
            failed == any_error(view_seq(lines@)),
        decreases args.len() - i,
    {
        proof {
            assert(all.take(i + 1).drop_last() =~= all.take(i as int));
            assert(all.take(i + 1).last() == args[i as int]@);
        }
        let ghost so_far = view_seq(lines@);
        let arg = args[i].as_str();
        let a = chars_of(arg);
        let eq = scan(&a, 0, CharClass::Until('='));
        let mut said: Option<Line> = None;
        if eq < a.len() {
            let name = substring(&a, 0, eq);
            if eq == 0 {
                let parts = ["cerf: alias: '", arg, "': invalid alias name"];
                assert(view_seq(parts@) =~= seq![
                    "cerf: alias: '"@,
                    arg@,
                    "': invalid alias name"@,
                ]);
                said = Some(Line::Diag(text(&parts)));
            } else if find_command(name.as_str()).is_some() {
                let parts = ["cerf: alias: '", name.as_str(), "': cannot override builtin command"];
                assert(view_seq(parts@) =~= seq![
                    "cerf: alias: '"@,
                    name@,
                    "': cannot override builtin command"@,
                ]);
                said = Some(Line::Diag(text(&parts)));
            } else {
                let value = substring(&a, eq + 1, a.len());
                aliases.insert(name.as_str(), value.as_str());
            }
        } else {
            match aliases.get(arg) {
                Some(value) => {
                    said = Some(show(arg, value.as_str()));
                },
                None => {
                    let parts = ["cerf: alias: ", arg, ": not found"];
                    assert(view_seq(parts@) =~= seq!["cerf: alias: "@, arg@, ": not found"@]);
                    said = Some(Line::Diag(text(&parts)));
                },
            }
        }
        match said {
            Some(line) => {
                proof {
                    lemma_view_seq_push(lines@, line);
                    assert(so_far.push(line@) =~= so_far + seq![line@]);
                    if line@ is Diag {
                        assert(so_far.push(line@)[so_far.len() as int] is Diag);
                    } else if any_error(so_far.push(line@)) {
                        let k = choose|k: int|
                            0 <= k < so_far.push(line@).len() && (#[trigger] so_far.push(
                                line@,
                            )[k]) is Diag;
                        assert(so_far[k] is Diag);
                    }
                    if any_error(so_far) {
                        let k = choose|k: int| 0 <= k < so_far.len() && (#[trigger] so_far[k]) is Diag;
                        assert(so_far.push(line@)[k] is Diag);
                    }
                }
                match &line {
                    Line::Diag(_) => {
                        failed = true;
                    },
                    Line::Out(_) => {},
                }
                lines.push(line);
            },
            None => {
                assert(so_far + Seq::<LineView>::empty() =~= so_far);
            },
        }
        i += 1;
    }
    assert(all.take(i as int) =~= all);
    (
        if failed {
            1
        } else {
            0
        },
        lines,
    )
}

/// The aliases after `unalias` has dealt with `args` in order: each name
/// is unbound; `-a` unbinds every name and ends the command.
pub open spec fn unaliased(args: Seq<Seq<char>>, aliases: Map<Seq<char>, Seq<char>>) -> Map<
    Seq<char>,
    Seq<char>,
>
    decreases args.len(),
{
    if args.len() == 0 {
        aliases
    } else if args[0] == "-a"@ {
        Map::empty()
    } else {
        unaliased(args.drop_first(), aliases.remove(args[0]))
    }
}

/// What `unalias` says of `args` in order: a complaint for each name that
/// is no alias when its turn comes.
pub open spec fn unalias_lines(args: Seq<Seq<char>>, aliases: Map<Seq<char>, Seq<char>>) -> Seq<
    LineView,
>
    decreases args.len(),
{
    if args.len() == 0 || args[0] == "-a"@ {
        Seq::empty()
    } else {
        (if aliases.contains_key(args[0]) {
            Seq::empty()
        } else {
            seq![LineView::Diag(concat(seq!["cerf: unalias: "@, args[0], ": not found"@]))]
        }) + unalias_lines(args.drop_first(), aliases.remove(args[0]))
    }
}

/// The builtin `unalias`: removes the aliases named; `-a` removes all.
/// Without arguments it complains and changes nothing.
pub fn unalias(args: &[String], aliases: &mut StrMap) -> (r: (i32, Vec<Line>))
    requires
        old(aliases).wf(),
    ensures
        final(aliases).wf(),
        final(aliases)@ == unaliased(view_seq(args@), old(aliases)@),
        view_seq(r.1@) == if args.len() == 0 {
            seq![LineView::Diag("cerf: unalias: usage: unalias [-a] name [name ...]"@)]
        } else {
            unalias_lines(view_seq(args@), old(aliases)@)
        },
        r.0 == status_of(view_seq(r.1@)),
{
    let mut lines: Vec<Line> = Vec::new();
    let ghost all = view_seq(args@);
    if args.len() == 0 {
        let line = Line::Diag("cerf: unalias: usage: unalias [-a] name [name ...]".to_owned());
        proof {
            lemma_view_seq_push(lines@, line);
            assert(view_seq(Seq::<Line>::empty()).push(line@) =~= seq![line@]);
            assert(seq![line@][0] is Diag);
        }
        lines.push(line);
        return (1, lines);
    }
    let ghost before = aliases@;
    let mut failed = false;
    let mut i: usize = 0;
    assert(all.skip(0) =~= all);
    assert(view_seq(lines@) + unalias_lines(all, before) =~= unalias_lines(all, before));
    while i < args.len()
        invariant
            0 <= i <= args.len(),
            all == view_seq(args@),
            before == old(aliases)@,
            aliases.wf(),
            unaliased(all, before) == unaliased(all.skip(i as int), aliases@),
            unalias_lines(all, before) == view_seq(lines@) + unalias_lines(
                all.skip(i as int),
                aliases@,
            ),
            failed == any_error(view_seq(lines@)),
        decreases args.len() - i,
    {
        let ghost rest = all.skip(i as int);
        let ghost so_far = view_seq(lines@);
        proof {
            assert(rest[0] == args[i as int]@);
            assert(rest.drop_first() =~= all.skip(i + 1));
        }
        let arg = args[i].as_str();
        if arg.eq("-a") {
            aliases.clear();
            proof {
                assert(so_far + Seq::<LineView>::empty() =~= so_far);
            }
            return (
                if failed {
                    1
                } else {
                    0
                },
                lines,
            );
        }
        if !aliases.remove(arg) {
            let parts = ["cerf: unalias: ", arg, ": not found"];
            assert(view_seq(parts@) =~= seq!["cerf: unalias: "@, arg@, ": not found"@]);
            let line = Line::Diag(text(&parts));
            proof {
                lemma_view_seq_push(lines@, line);
                let tail = unalias_lines(all.skip(i + 1), aliases@);
                assert(so_far.push(line@) + tail =~= so_far + (seq![line@] + tail));
                assert(so_far.push(line@)[so_far.len() as int] is Diag);
            }
            lines.push(line);
            failed = true;
        } else {
            proof {
                let tail = unalias_lines(all.skip(i + 1), aliases@);
                assert(so_far + tail =~= so_far + (Seq::<LineView>::empty() + tail));
            }
        }
        i += 1;
    }
    proof {
        assert(all.skip(i as int) =~= Seq::<Seq<char>>::empty());
        assert(view_seq(lines@) + Seq::<LineView>::empty() =~= view_seq(lines@));
    }
    (
        if failed {
            1
        } else {
            0
        },
        lines,
    )
}

/// After `alias NAME=VALUE` and `unalias NAME`, for a name that `alias`
/// accepts, `alias NAME` finds no alias and says so.
pub proof fn lemma_alias_then_unalias(
    aliases: Map<Seq<char>, Seq<char>>,
    name: Seq<char>,
    value: Seq<char>,
)
    requires
        name.len() > 0,
        forall|i: int| 0 <= i < name.len() ==> #[trigger] name[i] != '=',
        !is_builtin_name(name),
        name != "-a"@,
    ensures
        ({
            let defined = aliases_after(seq![name + seq!['='] + value], aliases);
            let removed = unaliased(seq![name], defined);
            &&& defined.contains_key(name)
            &&& defined[name] == value
            &&& !removed.contains_key(name)
            &&& alias_lines(seq![name], removed) == seq![
                LineView::Diag(concat(seq!["cerf: alias: "@, name, ": not found"@])),
            ]
            &&& aliases_after(seq![name], removed) == removed
        }),
{
    let arg = name + seq!['='] + value;
    let k = CharClass::Until('=');
    lemma_run_end(arg, 0, k);
    let eq = run_end(arg, 0, k);
    assert(arg[name.len() as int] == '=');
    if eq < name.len() {
        assert(arg[eq] == name[eq]);
    }
    if eq > name.len() {
        assert(crate::text::in_class(k, arg[name.len() as int]));
    }
    assert(arg.subrange(0, eq) =~= name);
    assert(arg.subrange(eq + 1, arg.len() as int) =~= value);
    assert(seq![arg].drop_last() =~= Seq::<Seq<char>>::empty());
    assert(seq![arg].last() == arg);
    assert(aliases_after(Seq::<Seq<char>>::empty(), aliases) == aliases);
    let defined = aliases_after(seq![arg], aliases);
    assert(defined == alias_defines(arg, aliases));
    assert(defined == aliases.insert(name, value));
    assert(seq![name].drop_first() =~= Seq::<Seq<char>>::empty());
    assert(seq![name][0] == name);
    let removed = unaliased(seq![name], defined);
    assert(unaliased(Seq::<Seq<char>>::empty(), defined.remove(name)) == defined.remove(name));
    assert(removed == defined.remove(name));
    lemma_run_end(name, 0, k);
    let e2 = run_end(name, 0, k);
    if e2 < name.len() {
        assert(name[e2] != '=');
    }
    assert(seq![name].drop_last() =~= Seq::<Seq<char>>::empty());
    assert(alias_lines(Seq::<Seq<char>>::empty(), removed) =~= Seq::<LineView>::empty());
    assert(Seq::<LineView>::empty() + alias_says(name, removed) =~= alias_says(name, removed));
}

} // verus!
