//! `export`, `unset`, and assignments: the shell's variables and the part
//! of them that children inherit.

use crate::ast::{lemma_view_seq_push, view_seq};
use crate::builtins::{concat, text, Line, LineView};
use crate::state::{env_after, EnvChange, EnvChangeView};
use crate::strmap::StrMap;
use crate::text::{chars_of, lemma_run_end, run_end, scan, substring, CharClass};
use vstd::prelude::*;

verus! {

/// The variables of a shell, the environment that its children inherit,
/// and what a command has asked and said so far.
pub struct EnvModel {
    pub vars: Map<Seq<char>, Seq<char>>,
    pub env: Map<Seq<char>, Seq<char>>,
    /// The changes to be made to the environment of the process.
    pub changes: Seq<EnvChangeView>,
    pub lines: Seq<LineView>,
}

/// The model of a command that starts with `vars` and `env`.
pub open spec fn starting(vars: Map<Seq<char>, Seq<char>>, env: Map<Seq<char>, Seq<char>>) -> EnvModel {
    EnvModel { vars, env, changes: Seq::empty(), lines: Seq::empty() }
}

/// `m` after `name` has been bound to `value` and exported.
pub open spec fn exported(m: EnvModel, name: Seq<char>, value: Seq<char>) -> EnvModel {
    EnvModel {
        vars: m.vars.insert(name, value),
        env: m.env.insert(name, value),
        changes: m.changes.push(EnvChangeView::Put(name, value)),
        lines: m.lines,
    }
}

/// `m` after `export` has dealt with `arg`: `name=value` binds and exports
/// the name, and is refused where the name is empty; a name alone exports
/// the variable of that name, if there is one.
pub open spec fn export_one(m: EnvModel, arg: Seq<char>) -> EnvModel {
    let eq = run_end(arg, 0, CharClass::Until('='));
    if eq < arg.len() {
        if eq == 0 {
            EnvModel {
                vars: m.vars,
                env: m.env,
                changes: m.changes,
                lines: m.lines.push(
                    LineView::Diag(
                        concat(seq!["cerf: export: '"@, arg, "': not a valid identifier"@]),
                    ),
                ),
            }
        } else {
            exported(m, arg.subrange(0, eq), arg.subrange(eq + 1, arg.len() as int))
        }
    } else if m.vars.contains_key(arg) {
        exported(m, arg, m.vars[arg])
    } else {
        m
    }
}

/// `m` after `export` has dealt with `args` in order.
pub open spec fn export_all(m: EnvModel, args: Seq<Seq<char>>) -> EnvModel
    decreases args.len(),
{
    if args.len() == 0 {
        m
    } else {
        export_one(export_all(m, args.drop_last()), args.last())
    }
}

/// `m` after `unset` has dealt with `name`: it is neither a variable nor
/// in the environment.
pub open spec fn unset_one(m: EnvModel, name: Seq<char>) -> EnvModel {
    EnvModel {
        vars: m.vars.remove(name),
        env: m.env.remove(name),
        changes: m.changes.push(EnvChangeView::Drop(name)),
        lines: m.lines,
    }
}

/// `m` after `unset` has dealt with `args` in order.
pub open spec fn unset_all(m: EnvModel, args: Seq<Seq<char>>) -> EnvModel
    decreases args.len(),
{
    if args.len() == 0 {
        m
    } else {
        unset_one(unset_all(m, args.drop_last()), args.last())
    }
}

/// `m` after the assignment of `value` to `name`: the variable is bound,
/// and the environment follows where it holds the name already.
pub open spec fn assign_one(m: EnvModel, name: Seq<char>, value: Seq<char>) -> EnvModel {
    if m.env.contains_key(name) {
        exported(m, name, value)
    } else {
        EnvModel {
            vars: m.vars.insert(name, value),
            env: m.env,
            changes: m.changes,
            lines: m.lines,
        }
    }
}

/// `m` after the assignments `pairs` have been made in order.
pub open spec fn assign_all(m: EnvModel, pairs: Seq<(Seq<char>, Seq<char>)>) -> EnvModel
    decreases pairs.len(),
{
    if pairs.len() == 0 {
        m
    } else {
        assign_one(assign_all(m, pairs.drop_last()), pairs.last().0, pairs.last().1)
    }
}

/// The lines that show the environment `pairs`.
pub open spec fn shown_env(pairs: Seq<(Seq<char>, Seq<char>)>) -> Seq<LineView> {
    Seq::new(
        pairs.len(),
        |i: int| LineView::Out(concat(seq!["export "@, pairs[i].0, "='"@, pairs[i].1, "'"@])),
    )
}

/// What a command has asked and said.
pub struct EnvReport {
    pub code: i32,
    pub lines: Vec<Line>,
    pub changes: Vec<EnvChange>,
}

fn put(vars: &mut StrMap, env: &mut StrMap, changes: &mut Vec<EnvChange>, name: &str, value: &str)
    requires
        old(vars).wf(),
        old(env).wf(),
    ensures
        final(vars).wf(),
        final(env).wf(),
        final(vars)@ == old(vars)@.insert(name@, value@),
        final(env)@ == old(env)@.insert(name@, value@),
        view_seq(final(changes)@) == view_seq(old(changes)@).push(
            EnvChangeView::Put(name@, value@),
        ),
{
    vars.insert(name, value);
    env.insert(name, value);
    let change = EnvChange::Put(name.to_owned(), value.to_owned());
    proof {
        lemma_view_seq_push(changes@, change);
    }
    changes.push(change);
}

/// The builtin `export`. Without arguments it shows the environment, by
/// name. With arguments it deals with each in order. The exit status is 1
/// where it had to complain.
pub fn export(args: &[String], vars: &mut StrMap, env: &mut StrMap) -> (r: EnvReport)
    requires
        old(vars).wf(),
        old(env).wf(),
    ensures
        final(vars).wf(),
        final(env).wf(),
        ({
            let m = export_all(starting(old(vars)@, old(env)@), view_seq(args@));
            &&& final(vars)@ == m.vars
            &&& final(env)@ == m.env
            &&& view_seq(r.changes@) == m.changes
            &&& view_seq(r.lines@) == if args.len() == 0 {
                shown_env(old(env).pairs())
            } else {
                m.lines
            }
            &&& r.code == if args.len() > 0 && m.lines.len() > 0 {
                1i32
            } else {
                0i32
            }
        }),
{
    let mut lines: Vec<Line> = Vec::new();
    let mut changes: Vec<EnvChange> = Vec::new();
    let ghost all = view_seq(args@);
    let ghost start = starting(vars@, env@);
    assert(view_seq(changes@) =~= start.changes);
    assert(view_seq(lines@) =~= start.lines);
    if args.len() == 0 {
        let n = env.len();
        let mut i: usize = 0;
        while i < n
            invariant
                0 <= i <= n == env.pairs().len(),
                env.wf(),
                lines.len() == i,
                forall|k: int|
                    0 <= k < i ==> (#[trigger] lines[k])@ == LineView::Out(
                        concat(seq!["export "@, env.pairs()[k].0, "='"@, env.pairs()[k].1, "'"@]),
                    ),
            decreases n - i,
        {
            let (name, value) = env.entry(i);
            let parts = ["export ", name.as_str(), "='", value.as_str(), "'"];
            assert(view_seq(parts@) =~= seq!["export "@, name@, "='"@, value@, "'"@]);
            lines.push(Line::Out(text(&parts)));
            i += 1;
        }
        assert(view_seq(lines@) =~= shown_env(env.pairs()));
        assert(all =~= Seq::<Seq<char>>::empty());
        return EnvReport { code: 0, lines, changes };
    }
    let mut i: usize = 0;
    assert(all.take(0) =~= Seq::<Seq<char>>::empty());
    while i < args.len()
        invariant
            0 <= i <= args.len(),
            all == view_seq(args@),
            start == starting(old(vars)@, old(env)@),
            vars.wf(),
            env.wf(),
            ({
                let m = export_all(start, all.take(i as int));
                &&& vars@ == m.vars
                &&& env@ == m.env
                &&& view_seq(changes@) == m.changes
                &&& view_seq(lines@) == m.lines
            }),
        decreases args.len() - i,
    {
        proof {
            assert(all.take(i + 1).drop_last() =~= all.take(i as int));
            assert(all.take(i + 1).last() == args[i as int]@);
        }
        let arg = args[i].as_str();
        let a = chars_of(arg);
        let eq = scan(&a, 0, CharClass::Until('='));
        if eq < a.len() {
            if eq == 0 {
                let parts = ["cerf: export: '", arg, "': not a valid identifier"];
                assert(view_seq(parts@) =~= seq![
                    "cerf: export: '"@,
                    arg@,
                    "': not a valid identifier"@,
                ]);
                let line = Line::Diag(text(&parts));
                proof {
                    lemma_view_seq_push(lines@, line);
                }
                lines.push(line);
            } else {
                let name = substring(&a, 0, eq);
                let value = substring(&a, eq + 1, a.len());
                put(vars, env, &mut changes, name.as_str(), value.as_str());
            }
        } else {
            let value = match vars.get(arg) {
                Some(v) => Some(v.clone()),
                None => None,
            };
            match value {
                Some(v) => {
                    put(vars, env, &mut changes, arg, v.as_str());
                    assert(vars@ =~= export_all(start, all.take(i as int)).vars);
                },
                None => {},
            }
        }
        i += 1;
    }
    assert(all.take(i as int) =~= all);
    let code = if lines.len() > 0 {
        1
    } else {
        0
    };
    EnvReport { code, lines, changes }
}

/// The builtin `unset`: removes each name from the variables and from the
/// environment.
pub fn unset(args: &[String], vars: &mut StrMap, env: &mut StrMap) -> (r: EnvReport)
    requires
        old(vars).wf(),
        old(env).wf(),
    ensures
        final(vars).wf(),
        final(env).wf(),
        ({
            let m = unset_all(starting(old(vars)@, old(env)@), view_seq(args@));
            &&& final(vars)@ == m.vars
            &&& final(env)@ == m.env
            &&& view_seq(r.changes@) == m.changes
        }),
        r.lines.len() == 0,
        r.code == 0,
{
    let mut changes: Vec<EnvChange> = Vec::new();
    let ghost all = view_seq(args@);
    let ghost start = starting(vars@, env@);
    assert(view_seq(changes@) =~= start.changes);
    let mut i: usize = 0;
    assert(all.take(0) =~= Seq::<Seq<char>>::empty());
    while i < args.len()
        invariant
            0 <= i <= args.len(),
            all == view_seq(args@),
            start == starting(old(vars)@, old(env)@),
            vars.wf(),
            env.wf(),
            ({
                let m = unset_all(start, all.take(i as int));
                &&& vars@ == m.vars
                &&& env@ == m.env
                &&& view_seq(changes@) == m.changes
            }),
        decreases args.len() - i,
    {
        proof {
            assert(all.take(i + 1).drop_last() =~= all.take(i as int));
            assert(all.take(i + 1).last() == args[i as int]@);
        }
        let name = args[i].as_str();
        vars.remove(name);
        env.remove(name);
        let change = EnvChange::Drop(name.to_owned());
        proof {
            lemma_view_seq_push(changes@, change);
        }
        changes.push(change);
        i += 1;
    }
    assert(all.take(i as int) =~= all);
    EnvReport { code: 0, lines: Vec::new(), changes }
}

/// Applies the assignments of a command that consists of assignments.
pub fn assign(pairs: &[(String, String)], vars: &mut StrMap, env: &mut StrMap) -> (r: Vec<
    EnvChange,
>)
    requires
        old(vars).wf(),
        old(env).wf(),
    ensures
        final(vars).wf(),
        final(env).wf(),
        ({
            let m = assign_all(starting(old(vars)@, old(env)@), view_seq(pairs@));
            &&& final(vars)@ == m.vars
            &&& final(env)@ == m.env
            &&& view_seq(r@) == m.changes
        }),
{
    let mut changes: Vec<EnvChange> = Vec::new();
    let ghost all = view_seq(pairs@);
    let ghost start = starting(vars@, env@);
    assert(view_seq(changes@) =~= start.changes);
    let mut i: usize = 0;
    assert(all.take(0) =~= Seq::<(Seq<char>, Seq<char>)>::empty());
    while i < pairs.len()
        invariant
            0 <= i <= pairs.len(),
            all == view_seq(pairs@),
            start == starting(old(vars)@, old(env)@),
            vars.wf(),
            env.wf(),
            ({
                let m = assign_all(start, all.take(i as int));
                &&& vars@ == m.vars
                &&& env@ == m.env
                &&& view_seq(changes@) == m.changes
            }),
        decreases pairs.len() - i,
    {
        proof {
            assert(all.take(i + 1).drop_last() =~= all.take(i as int));
            assert(all.take(i + 1).last() == pairs[i as int]@);
        }
        let name = pairs[i].0.as_str();
        let value = pairs[i].1.as_str();
        if env.contains_key(name) {
            put(vars, env, &mut changes, name, value);
        } else {
            vars.insert(name, value);
        }
        i += 1;
    }
    assert(all.take(i as int) =~= all);
    changes
}

/// The changes that a command asks for are the changes that it has made
/// to the shell's picture of the environment: a process environment that
/// agreed with the picture before agrees with it after.
pub proof fn lemma_changes_mirror(m: EnvModel, args: Seq<Seq<char>>)
    requires
        m.changes.len() == 0,
    ensures
        env_after(m.env, export_all(m, args).changes) == export_all(m, args).env,
        env_after(m.env, unset_all(m, args).changes) == unset_all(m, args).env,
    decreases args.len(),
{
    if args.len() > 0 {
        lemma_changes_mirror(m, args.drop_last());
        let e = export_all(m, args.drop_last());
        let e1 = export_one(e, args.last());
        if e1.changes.len() > e.changes.len() {
            assert(e1.changes.drop_last() =~= e.changes);
        }
        let u = unset_all(m, args.drop_last());
        let u1 = unset_one(u, args.last());
        assert(u1.changes.drop_last() =~= u.changes);
    }
}

/// After `export NAME=VALUE` and `unset NAME`, the name is neither a
/// variable nor in the environment, and the changes asked for leave a
/// process environment without it.
pub proof fn lemma_export_then_unset(
    vars: Map<Seq<char>, Seq<char>>,
    env: Map<Seq<char>, Seq<char>>,
    name: Seq<char>,
    value: Seq<char>,
)
    requires
        name.len() > 0,
        forall|i: int| 0 <= i < name.len() ==> #[trigger] name[i] != '=',
    ensures
        ({
            let a = export_all(starting(vars, env), seq![name + seq!['='] + value]);
            let b = unset_all(starting(a.vars, a.env), seq![name]);
            &&& a.vars.contains_key(name) && a.vars[name] == value
            &&& a.env.contains_key(name) && a.env[name] == value
            &&& !b.vars.contains_key(name)
            &&& !b.env.contains_key(name)
            &&& !env_after(env, a.changes + b.changes).contains_key(name)
        }),
{
    let arg = name + seq!['='] + value;
    let k = CharClass::Until('=');
    lemma_run_end(arg, 0, k);
    let eq = run_end(arg, 0, k);
    assert(arg[name.len() as int] == '=');
    if eq < name.len() {
        assert(arg[eq] == name[eq]);
    }
    if eq > name.len() {
        assert(crate::text::in_class(k, arg[name.len() as int]));
    }
    assert(arg.subrange(0, eq) =~= name);
    assert(arg.subrange(eq + 1, arg.len() as int) =~= value);
    let m0 = starting(vars, env);
    assert(seq![arg].drop_last() =~= Seq::<Seq<char>>::empty());
    assert(seq![arg].last() == arg);
    assert(export_all(m0, Seq::<Seq<char>>::empty()) == m0);
    let a = export_all(m0, seq![arg]);
    assert(a == export_one(m0, arg));
    let m1 = starting(a.vars, a.env);
    assert(seq![name].drop_last() =~= Seq::<Seq<char>>::empty());
    assert(seq![name].last() == name);
    assert(unset_all(m1, Seq::<Seq<char>>::empty()) == m1);
    let b = unset_all(m1, seq![name]);
    assert(b == unset_one(m1, name));
    let both = a.changes + b.changes;
    assert(a.changes =~= seq![EnvChangeView::Put(name, value)]);
    assert(b.changes =~= seq![EnvChangeView::Drop(name)]);
    assert(both.last() == EnvChangeView::Drop(name));
}

} // verus!
