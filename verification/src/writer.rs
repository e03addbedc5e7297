//! Writing a command list out as a line that reads back as the list.

use crate::ast::{
    view_seq, Arg, ArgView, CommandEntry, CommandView, Connector, ParsedCommand, Pipeline,
    PipelineView, Redirect, RedirectKind, RedirectView,
};
use crate::locality::lemma_run_moves;
use crate::spelling::{
    escape, gap, is_plain, items_of, quote_for, spell_arg, spell_args, spell_assignment,
    spell_assignments, spell_bang, spell_behind, spell_command, spell_connector, spell_file,
    spell_items, spell_line, spell_list, spell_mixed, spell_name, spell_op, spell_opt_name,
    spell_pieces, spell_pipe, spell_piped, spell_pipeline, spell_quoted, spell_redirect,
    spell_redirects, spell_value,
};
use crate::text::{chars_of, run_end, scan, space, string_of, word_char, CharClass};
use vstd::prelude::*;

verus! {

/// Appends `part` to `out`.
fn push_all(out: &mut Vec<char>, part: &Vec<char>)
    ensures
        final(out)@ == old(out)@ + part@,
{
    let mut k: usize = 0;
    while k < part.len()
        invariant
            0 <= k <= part.len(),
            out@ == old(out)@ + part@.take(k as int),
        decreases part.len() - k,
    {
        out.push(part[k]);
        assert(out@ =~= old(out)@ + part@.take(k + 1));
        k += 1;
    }
    assert(part@.take(k as int) =~= part@);
}

/// Whether `v` can be written bare.
fn plain(v: &Vec<char>) -> (r: bool)
    ensures
        r == is_plain(v@),
{
    if v.len() == 0 {
        return false;
    }
    let mut i: usize = 0;
    while i < v.len()
        invariant
            0 <= i <= v.len(),
            forall|k: int|
                0 <= k < i ==> crate::text::is_word_char(#[trigger] v[k]) && !crate::text::is_space(
                    v[k],
                ) && v[k] != '$',
        decreases v.len() - i,
    {
        let c = v[i];
        if !word_char(c) || space(c) || c == '$' {
            return false;
        }
        i += 1;
    }
    true
}

/// Whether `c` occurs in `v`.
fn holds(v: &Vec<char>, c: char) -> (r: bool)
    ensures
        r == v@.contains(c),
{
    let mut i: usize = 0;
    while i < v.len()
        invariant
            0 <= i <= v.len(),
            forall|k: int| 0 <= k < i ==> v[k] != c,
        decreases v.len() - i,
    {
        if v[i] == c {
            return true;
        }
        i += 1;
    }
    false
}

/// What is left of the pieces of a word from index `i` on.
proof fn lemma_pieces_step(v: Seq<char>, i: int)
    requires
        0 <= i < v.len(),
    ensures
        ({
            let q = quote_for(v.skip(i));
            let j = run_end(v, i, CharClass::Until(q));
            &&& q == if v[i] == '"' {
                '\''
            } else {
                '"'
            }
            &&& i < j <= v.len()
            &&& spell_pieces(v.skip(i)) == seq![q] + v.subrange(i, j) + seq![q] + spell_pieces(
                v.skip(j),
            )
        }),
{
    let t = v.skip(i);
    let q = quote_for(t);
    let k = CharClass::Until(q);
    assert(t[0] == v[i]);
    lemma_run_moves(v, i, 0, k);
    crate::text::lemma_run_end(t, 0, k);
    crate::text::lemma_run_end_advances(t, 0, k);
    let n = run_end(t, 0, k);
    assert(t.subrange(0, n) =~= v.subrange(i, i + n));
    assert(t.subrange(n, t.len() as int) =~= v.skip(i + n));
}

/// Appends `v` as quoted pieces, each in a quote that it does not hold.
fn push_pieces(out: &mut Vec<char>, v: &Vec<char>)
    ensures
        final(out)@ == old(out)@ + spell_pieces(v@),
{
    let ghost base = out@;
    let mut i: usize = 0;
    assert(v@.skip(0) =~= v@);
    assert(base + Seq::<char>::empty() =~= base);
    let ghost mut done: Seq<char> = Seq::empty();
    while i < v.len()
        invariant
            0 <= i <= v.len(),
            out@ == base + done,
            spell_pieces(v@) == done + spell_pieces(v@.skip(i as int)),
        decreases v.len() - i,
    {
        proof {
            lemma_pieces_step(v@, i as int);
        }
        let q = if v[i] == '"' {
            '\''
        } else {
            '"'
        };
        let j = scan(v, i, CharClass::Until(q));
        let ghost piece = seq![q] + v@.subrange(i as int, j as int) + seq![q];
        let ghost before = out@;
        out.push(q);
        let mut k: usize = i;
        while k < j
            invariant
                i <= k <= j <= v.len(),
                out@ == before + seq![q] + v@.subrange(i as int, k as int),
            decreases j - k,
        {
            out.push(v[k]);
            assert(out@ =~= before + seq![q] + v@.subrange(i as int, k + 1));
            k += 1;
        }
        out.push(q);
        proof {
            assert(out@ =~= base + (done + piece));
            assert((done + piece) + spell_pieces(v@.skip(j as int)) =~= done + (piece
                + spell_pieces(v@.skip(j as int))));
            done = done + piece;
        }
        i = j;
    }
    proof {
        assert(v@.skip(i as int) =~= Seq::<char>::empty());
        assert(done + Seq::<char>::empty() =~= done);
    }
}

/// Appends `v` as a word that does not count as quoted.
fn push_mixed(out: &mut Vec<char>, v: &Vec<char>)
    ensures
        final(out)@ == old(out)@ + spell_mixed(v@),
{
    let ghost base = out@;
    out.push('"');
    out.push('"');
    if v.len() == 0 {
        out.push('"');
        out.push('"');
        assert(out@ =~= base + spell_mixed(v@));
    } else {
        push_pieces(out, v);
        assert(out@ =~= base + spell_mixed(v@));
    }
}

/// Writes a word that does not count as quoted: bare where `bare` allows
/// it, else in quotes.
fn push_word(out: &mut Vec<char>, v: &Vec<char>, bare: bool)
    ensures
        final(out)@ == old(out)@ + if bare {
            v@
        } else {
            spell_mixed(v@)
        },
{
    if bare {
        push_all(out, v);
    } else {
        push_mixed(out, v);
    }
}

/// Appends an argument.
fn push_arg(out: &mut Vec<char>, arg: &Arg)
    ensures
        final(out)@ == old(out)@ + spell_arg(arg@),
{
    let v = chars_of(arg.value.as_str());
    if arg.quoted {
        let q = if holds(&v, '"') {
            '\''
        } else {
            '"'
        };
        let ghost base = out@;
        out.push(q);
        push_all(out, &v);
        out.push(q);
        assert(out@ =~= base + spell_quoted(v@));
    } else {
        let bare = plain(&v);
        push_word(out, &v, bare);
    }
}

/// Appends a command name.
fn push_name(out: &mut Vec<char>, name: &str)
    ensures
        final(out)@ == old(out)@ + spell_name(name@),
{
    let v = chars_of(name);
    let bare = plain(&v) && !holds(&v, '=') && v[0] != '!' && v[0] != '#';
    push_word(out, &v, bare);
}

/// Appends the file name of a redirection.
fn push_file(out: &mut Vec<char>, file: &str)
    ensures
        final(out)@ == old(out)@ + spell_file(file@),
{
    let v = chars_of(file);
    let bare = plain(&v);
    push_word(out, &v, bare);
}

/// Appends one assignment.
fn push_assignment(out: &mut Vec<char>, pair: &(String, String))
    ensures
        final(out)@ == old(out)@ + spell_assignment(pair@),
{
    let ghost base = out@;
    let name = chars_of(pair.0.as_str());
    let v = chars_of(pair.1.as_str());
    push_all(out, &name);
    out.push('=');
    if v.len() > 0 {
        let bare = plain(&v);
        push_word(out, &v, bare);
    }
    assert(out@ =~= base + spell_assignment(pair@)) by {
        assert(spell_assignment(pair@) == pair@.0 + seq!['='] + spell_value(pair@.1));
        if v.len() == 0 {
            assert(spell_value(v@) =~= Seq::<char>::empty());
        }
    }
}

/// Appends the assignments, a blank between each two.
fn push_assignments(out: &mut Vec<char>, pairs: &Vec<(String, String)>)
    ensures
        final(out)@ == old(out)@ + spell_assignments(view_seq(pairs@)),
{
    let ghost base = out@;
    let ghost all = view_seq(pairs@);
    let ghost mut done: Seq<char> = Seq::empty();
    let n = pairs.len();
    let mut i: usize = 0;
    assert(all.skip(0) =~= all);
    assert(base + done =~= base);
    assert(done + spell_assignments(all) =~= spell_assignments(all));
    while i < n
        invariant
            0 <= i <= n == pairs.len(),
            all == view_seq(pairs@),
            out@ == base + done,
            spell_assignments(all) == done + spell_assignments(all.skip(i as int)),
        decreases n - i,
    {
        let ghost rest = all.skip(i as int);
        proof {
            assert(rest[0] == pairs[i as int]@);
            assert(rest.drop_first() =~= all.skip(i + 1));
        }
        push_assignment(out, &pairs[i]);
        let ghost one = spell_assignment(pairs[i as int]@);
        if i + 1 < n {
            out.push(' ');
            proof {
                let next = spell_assignments(all.skip(i + 1));
                assert(out@ =~= base + (done + one + seq![' ']));
                assert((done + one + seq![' ']) + next =~= done + (one + seq![' '] + next));
                done = done + one + seq![' '];
            }
        } else {
            proof {
                assert(rest.len() == 1);
                assert(all.skip(i + 1) =~= Seq::<(Seq<char>, Seq<char>)>::empty());
                assert(out@ =~= base + (done + one));
                assert((done + one) + Seq::<char>::empty() =~= done + one);
                done = done + one;
            }
        }
        i += 1;
    }
    proof {
        assert(all.skip(n as int) =~= Seq::<(Seq<char>, Seq<char>)>::empty());
        assert(done + Seq::<char>::empty() =~= done);
    }
}

/// Appends one redirection, a blank before it.
fn push_redirect(out: &mut Vec<char>, r: &Redirect)
    ensures
        final(out)@ == old(out)@ + spell_redirect(r@),
{
    let ghost base = out@;
    out.push(' ');
    match r.kind {
        RedirectKind::StdoutAppend => {
            out.push('>');
            out.push('>');
        },
        RedirectKind::StdoutOverwrite => {
            out.push('>');
        },
        RedirectKind::StdinFrom => {
            out.push('<');
        },
    }
    out.push(' ');
    assert(out@ =~= base + (seq![' '] + spell_op(r.kind) + seq![' ']));
    push_file(out, r.file.as_str());
    assert(out@ =~= base + spell_redirect(r@));
}

/// Appends the redirections.
fn push_redirects(out: &mut Vec<char>, rs: &Vec<Redirect>)
    ensures
        final(out)@ == old(out)@ + spell_redirects(view_seq(rs@)),
{
    let ghost base = out@;
    let ghost all = view_seq(rs@);
    let ghost mut done: Seq<char> = Seq::empty();
    let mut i: usize = 0;
    assert(all.skip(0) =~= all);
    assert(base + done =~= base);
    assert(done + spell_redirects(all) =~= spell_redirects(all));
    while i < rs.len()
        invariant
            0 <= i <= rs.len(),
            all == view_seq(rs@),
            out@ == base + done,
            spell_redirects(all) == done + spell_redirects(all.skip(i as int)),
        decreases rs.len() - i,
    {
        let ghost rest = all.skip(i as int);
        proof {
            assert(rest[0] == rs[i as int]@);
            assert(rest.drop_first() =~= all.skip(i + 1));
        }
        push_redirect(out, &rs[i]);
        proof {
            let one = spell_redirect(rs[i as int]@);
            let next = spell_redirects(all.skip(i + 1));
            assert(out@ =~= base + (done + one));
            assert((done + one) + next =~= done + (one + next));
            done = done + one;
        }
        i += 1;
    }
    proof {
        assert(all.skip(i as int) =~= Seq::<RedirectView>::empty());
        assert(done + Seq::<char>::empty() =~= done);
    }
}

/// Appends the arguments, a blank before each.
fn push_args(out: &mut Vec<char>, args: &Vec<Arg>)
    ensures
        final(out)@ == old(out)@ + spell_args(view_seq(args@)),
{
    let ghost base = out@;
    let ghost all = view_seq(args@);
    let ghost mut done: Seq<char> = Seq::empty();
    let mut i: usize = 0;
    assert(all.skip(0) =~= all);
    assert(base + done =~= base);
    assert(done + spell_args(all) =~= spell_args(all));
    while i < args.len()
        invariant
            0 <= i <= args.len(),
            all == view_seq(args@),
            out@ == base + done,
            spell_args(all) == done + spell_args(all.skip(i as int)),
        decreases args.len() - i,
    {
        let ghost rest = all.skip(i as int);
        proof {
            assert(rest[0] == args[i as int]@);
            assert(rest.drop_first() =~= all.skip(i + 1));
        }
        out.push(' ');
        push_arg(out, &args[i]);
        proof {
            let one = seq![' '] + spell_arg(args[i as int]@);
            let next = spell_args(all.skip(i + 1));
            assert(out@ =~= base + (done + one));
            assert((done + one) + next =~= done + (one + next));
            done = done + one;
        }
        i += 1;
    }
    proof {
        assert(all.skip(i as int) =~= Seq::<ArgView>::empty());
        assert(done + Seq::<char>::empty() =~= done);
    }
}

/// Appends a command: assignments, name, redirections, arguments.
fn push_command(out: &mut Vec<char>, c: &ParsedCommand)
    ensures
        final(out)@ == old(out)@ + spell_command(c@),
{
    reveal(spell_command);
    let ghost base = out@;
    let first = c.assignments.len() == 0;
    push_assignments(out, &c.assignments);
    let ghost a = out@;
    match &c.name {
        Some(n) => {
            if !first {
                out.push(' ');
            }
            assert(out@ =~= a + gap(first));
            push_name(out, n.as_str());
            assert(out@ =~= a + spell_opt_name(c@.name, first));
        },
        None => {
            assert(out@ =~= a + spell_opt_name(c@.name, first));
        },
    }
    push_redirects(out, &c.redirects);
    push_args(out, &c.args);
    assert(out@ =~= base + spell_command(c@));
}

/// Appends a pipeline.
fn push_pipeline(out: &mut Vec<char>, p: &Pipeline)
    requires
        p.wf(),
    ensures
        final(out)@ == old(out)@ + spell_pipeline(p@),
{
    reveal(spell_pipeline);
    let ghost base = out@;
    let ghost cs = p@.commands;
    if p.negated {
        out.push('!');
        out.push(' ');
    }
    assert(out@ =~= base + spell_bang(p.negated));
    assert(cs[0] == p.commands[0]@);
    push_command(out, &p.commands[0]);
    let ghost head = out@;
    let ghost tail = cs.drop_first();
    let ghost mut done: Seq<char> = Seq::empty();
    let n = p.commands.len();
    let mut i: usize = 1;
    assert(tail.skip(0) =~= tail);
    assert(head + done =~= head);
    assert(done + spell_piped(tail) =~= spell_piped(tail));
    while i < n
        invariant
            1 <= i <= n == p.commands.len(),
            cs == p@.commands,
            tail == cs.drop_first(),
            out@ == head + done,
            spell_piped(tail) == done + spell_piped(tail.skip(i - 1)),
        decreases n - i,
    {
        let ghost rest = tail.skip(i - 1);
        proof {
            assert(rest[0] == p.commands[i as int]@);
            assert(rest.drop_first() =~= tail.skip(i as int));
        }
        let ghost before = out@;
        out.push(' ');
        out.push('|');
        out.push(' ');
        assert(out@ =~= before + seq![' ', '|', ' ']);
        push_command(out, &p.commands[i]);
        proof {
            let one = spell_pipe(p.commands[i as int]@);
            let next = spell_piped(tail.skip(i as int));
            assert(out@ =~= head + (done + one));
            assert((done + one) + next =~= done + (one + next));
            done = done + one;
        }
        i += 1;
    }
    proof {
        assert(tail.skip(n - 1) =~= Seq::<CommandView>::empty());
        assert(done + Seq::<char>::empty() =~= done);
        assert(out@ =~= base + spell_pipeline(p@));
    }
}

/// Appends a connector.
fn push_connector(out: &mut Vec<char>, c: Connector)
    ensures
        final(out)@ == old(out)@ + spell_connector(c),
{
    let ghost base = out@;
    match c {
        Connector::And => {
            out.push('&');
            out.push('&');
        },
        Connector::Or => {
            out.push('|');
            out.push('|');
        },
        Connector::Semi => {
            out.push(';');
        },
        Connector::Amp => {
            out.push('&');
        },
    }
    assert(out@ =~= base + spell_connector(c));
}

/// What is left of a list as it is written, from its pipeline `k` on.
proof fn lemma_items_step(items: Seq<(PipelineView, Option<Connector>)>, k: int)
    requires
        0 <= k < items.len(),
    ensures
        spell_items(items.skip(k)) == spell_pipeline(items[k].0) + match items[k].1 {
            None => Seq::<char>::empty(),
            Some(c) => seq![' '] + spell_connector(c) + (if k + 1 < items.len() {
                seq![' '] + spell_items(items.skip(k + 1))
            } else {
                Seq::<char>::empty()
            }),
        },
{
    let rest = items.skip(k);
    assert(rest[0] == items[k]);
    assert(rest.drop_first() =~= items.skip(k + 1));
    assert(spell_items(rest) == spell_pipeline(rest[0].0) + spell_behind(rest));
}

/// The characters of a command list as it is written, before `$` is doubled.
fn list_chars(entries: &Vec<CommandEntry>) -> (out: Vec<char>)
    requires
        forall|k: int| 0 <= k < entries.len() ==> (#[trigger] entries[k]).pipeline.wf(),
    ensures
        out@ == spell_list(view_seq(entries@)),
{
    let ghost es = view_seq(entries@);
    let ghost items = items_of(es);
    let ghost mut done: Seq<char> = Seq::empty();
    let mut out: Vec<char> = Vec::new();
    let n = entries.len();
    let mut k: usize = 0;
    assert(items.skip(0) =~= items);
    assert(done + spell_items(items) =~= spell_items(items));
    while k < n
        invariant
            0 <= k <= n == entries.len(),
            es == view_seq(entries@),
            items == items_of(es),
            forall|x: int| 0 <= x < entries.len() ==> (#[trigger] entries[x]).pipeline.wf(),
            out@ == done,
            spell_items(items) == done + if k < n {
                spell_items(items.skip(k as int))
            } else {
                Seq::<char>::empty()
            },
        decreases n - k,
    {
        proof {
            lemma_items_step(items, k as int);
            assert(es[k as int] == entries[k as int]@);
        }
        let entry = &entries[k];
        let ghost p = items[k as int].0;
        let ghost pipe = spell_pipeline(p);
        // The pipeline is written as one that is not marked as a background pipeline.
        let shown = Pipeline {
            commands: entry.pipeline.copy().commands,
            negated: entry.pipeline.negated,
            background: false,
        };
        assert(shown@ == p);
        push_pipeline(&mut out, &shown);
        let connector = if k + 1 < n {
            proof {
                assert(es[k + 1] == entries[k + 1]@);
            }
            entries[k + 1].connector
        } else if entry.pipeline.background {
            Some(Connector::Amp)
        } else {
            None
        };
        assert(connector == items[k as int].1);
        match connector {
            Some(c) => {
                out.push(' ');
                push_connector(&mut out, c);
                if k + 1 < n {
                    out.push(' ');
                    proof {
                        let next = spell_items(items.skip(k + 1));
                        let one = pipe + (seq![' '] + spell_connector(c) + seq![' ']);
                        assert(out@ =~= done + one);
                        assert((done + one) + next =~= done + (pipe + (seq![' '] + spell_connector(
                            c,
                        ) + (seq![' '] + next))));
                        done = done + one;
                    }
                } else {
                    proof {
                        let one = pipe + (seq![' '] + spell_connector(c));
                        assert(out@ =~= done + one);
                        assert((done + one) + Seq::<char>::empty() =~= done + (pipe + (seq![' ']
                            + spell_connector(c) + Seq::<char>::empty())));
                        done = done + one;
                    }
                }
            },
            None => {
                // Behind a pipeline without connector nothing is written.
                proof {
                    assert(out@ =~= done + pipe);
                    assert((done + pipe) =~= done + (pipe + Seq::<char>::empty()));
                }
                return out;
            },
        }
        k += 1;
    }
    proof {
        if n == 0 {
            assert(items =~= Seq::empty());
        }
        assert(done + Seq::<char>::empty() =~= done);
    }
    out
}

/// `t` with every `$` doubled.
fn doubled(t: &Vec<char>) -> (out: Vec<char>)
    ensures
        out@ == escape(t@),
{
    let mut out: Vec<char> = Vec::new();
    let ghost mut done: Seq<char> = Seq::empty();
    let mut i: usize = 0;
    assert(t@.skip(0) =~= t@);
    assert(done + escape(t@) =~= escape(t@));
    while i < t.len()
        invariant
            0 <= i <= t.len(),
            out@ == done,
            escape(t@) == done + escape(t@.skip(i as int)),
        decreases t.len() - i,
    {
        let ghost rest = t@.skip(i as int);
        proof {
            assert(rest[0] == t[i as int]);
            assert(rest.drop_first() =~= t@.skip(i + 1));
        }
        let c = t[i];
        if c == '$' {
            out.push('$');
        }
        out.push(c);
        proof {
            let one: Seq<char> = if c == '$' {
                seq!['$', '$']
            } else {
                seq![c]
            };
            let next = escape(t@.skip(i + 1));
            assert(out@ =~= done + one);
            assert((done + one) + next =~= done + (one + next));
            done = done + one;
        }
        i += 1;
    }
    proof {
        assert(t@.skip(i as int) =~= Seq::<char>::empty());
        assert(done + Seq::<char>::empty() =~= done);
    }
    out
}

/// Writes a command list out as a line. Where the list is one that a line
/// was read as, the line that is written reads back as the list.
pub fn write_line(entries: &Vec<CommandEntry>) -> (r: String)
    requires
        forall|k: int| 0 <= k < entries.len() ==> (#[trigger] entries[k]).pipeline.wf(),
    ensures
        r@ == spell_line(view_seq(entries@)),
{
    let t = list_chars(entries);
    let out = doubled(&t);
    string_of(&out)
}

} // verus!
