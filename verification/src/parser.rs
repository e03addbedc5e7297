//! The parser: from a line of input to a command list.

use crate::ast::{
    lemma_view_seq_push, view_seq, Arg, ArgView, CommandEntry, CommandView, Connector, EntryView,
    ParsedCommand, Pipeline, PipelineView, Redirect, RedirectKind, RedirectView,
};
use crate::expand::{expand_chars, spec_expand};
use crate::grammar::{
    assignment_at, assignments_from, bang_at, command_at, connector_at, entries_of, items_from, lemma_assignment_advances, lemma_command_advances, lemma_pipeline_advances, lemma_redirect_advances, lemma_segment_advances, lemma_word_advances, list_from, pipe_at, piped_from, pipeline_at, redirect_at, redirect_op_at, segment_at, segments_from, word_at,
};
use crate::strmap::StrMap;
use crate::text::{
    chars_of, ident_start, lemma_run_end, scan, space, string_of, substring, trim, trimmed, word_char, CharClass,
};
use vstd::prelude::*;

verus! {

/// The segment at `i`: where it ends, the range of its text, and whether it
/// was quoted.
fn parse_segment(v: &Vec<char>, i: usize) -> (r: Option<(usize, usize, usize, bool)>)
    requires
        i <= v.len(),
    ensures
        match r {
            Some((end, from, to, quoted)) => {
                &&& from <= to <= v.len()
                &&& i < end <= v.len()
                &&& segment_at(v@, i as int) == Some(
                    (end as int, v@.subrange(from as int, to as int), quoted),
                )
            },
            None => segment_at(v@, i as int) is None,
        },
{
    proof {
        lemma_segment_advances(v@, i as int);
    }
    if i >= v.len() {
        return None;
    }
    let c = v[i];
    if c == '"' || c == '\'' {
        let j = scan(v, i + 1, CharClass::Until(c));
        if j < v.len() {
            Some((j + 1, i + 1, j, true))
        } else {
            None
        }
    } else if word_char(c) {
        let j = scan(v, i, CharClass::Word);
        Some((j, i, j, false))
    } else {
        None
    }
}

/// Appends `v[from..to]` to `out`.
fn push_range(out: &mut Vec<char>, v: &Vec<char>, from: usize, to: usize)
    requires
        from <= to <= v.len(),
    ensures
        final(out)@ == old(out)@ + v@.subrange(from as int, to as int),
{
    let mut k: usize = from;
    while k < to
        invariant
            from <= k <= to <= v.len(),
            out@ == old(out)@ + v@.subrange(from as int, k as int),
        decreases to - k,
    {
        out.push(v[k]);
        assert(out@ =~= old(out)@ + v@.subrange(from as int, k + 1));
        k += 1;
    }
}

/// The word at `i`: where it ends, and the argument it makes.
pub fn parse_arg(v: &Vec<char>, i: usize) -> (r: Option<(usize, Arg)>)
    requires
        i <= v.len(),
    ensures
        match r {
            Some((end, arg)) => i < end <= v.len() && word_at(v@, i as int) == Some(
                (end as int, arg@),
            ),
            None => word_at(v@, i as int) is None,
        },
{
    reveal(word_at);
    proof {
        lemma_word_advances(v@, i as int);
    }
    match parse_segment(v, i) {
        None => None,
        Some((first_end, from, to, quoted)) => {
            let mut value: Vec<char> = Vec::new();
            push_range(&mut value, v, from, to);
            let ghost text = v@.subrange(from as int, to as int);
            let ghost mut joined: Seq<char> = Seq::empty();
            let ghost mut count: nat = 0;
            let mut single = true;
            let mut cur = first_end;
            let mut next = parse_segment(v, cur);
            assert(value@ =~= text + joined);
            assert(joined + segments_from(v@, cur as int).1 =~= segments_from(v@, cur as int).1);
            while next.is_some()
                invariant
                    cur <= v.len(),
                    value@ == text + joined,
                    single == (count == 0),
                    segments_from(v@, first_end as int).0 == segments_from(v@, cur as int).0,
                    segments_from(v@, first_end as int).1 == joined + segments_from(
                        v@,
                        cur as int,
                    ).1,
                    segments_from(v@, first_end as int).2 == count + segments_from(
                        v@,
                        cur as int,
                    ).2,
                    match next {
                        Some((end, a, b, q)) => {
                            &&& a <= b <= v.len()
                            &&& cur < end <= v.len()
                            &&& segment_at(v@, cur as int) == Some(
                                (end as int, v@.subrange(a as int, b as int), q),
                            )
                        },
                        None => segment_at(v@, cur as int) is None,
                    },
                decreases v.len() - cur,
            {
                let (end, a, b, _) = next.unwrap();
                push_range(&mut value, v, a, b);
                proof {
                    let piece = v@.subrange(a as int, b as int);
                    let rest = segments_from(v@, end as int).1;
                    assert(segments_from(v@, cur as int).1 == piece + rest);
                    assert(value@ =~= text + (joined + piece));
                    assert((joined + piece) + rest =~= joined + (piece + rest));
                    joined = joined + piece;
                    count = count + 1;
                }
                single = false;
                cur = end;
                next = parse_segment(v, cur);
            }
            proof {
                assert(joined + Seq::<char>::empty() =~= joined);
            }
            Some((cur, Arg { value: string_of(&value), quoted: quoted && single }))
        },
    }
}

/// The word at `i`: where it ends, and its value.
pub fn parse_word(v: &Vec<char>, i: usize) -> (r: Option<(usize, String)>)
    requires
        i <= v.len(),
    ensures
        match r {
            Some((end, value)) => {
                &&& i < end <= v.len()
                &&& word_at(v@, i as int) matches Some(w)
                &&& w.0 == end
                &&& w.1.value == value@
            },
            None => word_at(v@, i as int) is None,
        },
{
    reveal(word_at);
    match parse_arg(v, i) {
        Some((end, arg)) => Some((end, arg.value)),
        None => None,
    }
}

/// The redirection at `i`: where it ends, and what it is.
pub fn parse_redirect(v: &Vec<char>, i: usize) -> (r: Option<(usize, Redirect)>)
    requires
        i <= v.len(),
    ensures
        match r {
            Some((end, redirect)) => i < end <= v.len() && redirect_at(v@, i as int) == Some(
                (end as int, redirect@),
            ),
            None => redirect_at(v@, i as int) is None,
        },
{
    reveal(redirect_at);
    proof {
        lemma_redirect_advances(v@, i as int);
    }
    let a = scan(v, i, CharClass::Blank);
    let n = v.len();
    let (after, kind) = if a < n && v[a] == '>' {
        if a + 1 < n && v[a + 1] == '>' {
            (a + 2, RedirectKind::StdoutAppend)
        } else {
            (a + 1, RedirectKind::StdoutOverwrite)
        }
    } else if a < n && v[a] == '<' {
        (a + 1, RedirectKind::StdinFrom)
    } else {
        return None;
    };
    assert(redirect_op_at(v@, a as int) == Some((after as int, kind)));
    let b = scan(v, after, CharClass::Blank);
    match parse_word(v, b) {
        Some((end, file)) => Some((end, Redirect { kind, file })),
        None => None,
    }
}

/// The assignment at `i`: where it ends, its name and its value.
pub fn parse_assignment(v: &Vec<char>, i: usize) -> (r: Option<(usize, (String, String))>)
    requires
        i <= v.len(),
    ensures
        match r {
            Some((end, pair)) => i < end <= v.len() && assignment_at(v@, i as int) == Some(
                (end as int, pair@),
            ),
            None => assignment_at(v@, i as int) is None,
        },
{
    reveal(assignment_at);
    proof {
        lemma_assignment_advances(v@, i as int);
    }
    let n = v.len();
    if i < n && ident_start(v[i]) {
        let j = scan(v, i, CharClass::Ident);
        if j < n && v[j] == '=' {
            let name = substring(v, i, j);
            match parse_word(v, j + 1) {
                Some((end, value)) => Some((end, (name, value))),
                None => Some((j + 1, (name, String::new()))),
            }
        } else {
            None
        }
    } else {
        None
    }
}

/// The assignments from `i` on: where they end, and what they are.
fn parse_assignments(v: &Vec<char>, i: usize) -> (r: (usize, Vec<(String, String)>))
    requires
        i <= v.len(),
    ensures
        i <= r.0 <= v.len(),
        assignments_from(v@, i as int) == (r.0 as int, view_seq(r.1@)),
{
    reveal(assignment_at);
    reveal(assignments_from);
    let mut out: Vec<(String, String)> = Vec::new();
    let mut cur = i;
    let mut next = parse_assignment(v, cur);
    assert(view_seq(out@) + assignments_from(v@, cur as int).1 =~= assignments_from(
        v@,
        cur as int,
    ).1);
    while next.is_some()
        invariant
            i <= cur <= v.len(),
            assignments_from(v@, i as int).0 == assignments_from(v@, cur as int).0,
            assignments_from(v@, i as int).1 == view_seq(out@) + assignments_from(
                v@,
                cur as int,
            ).1,
            match next {
                Some((end, pair)) => cur < end <= v.len() && assignment_at(v@, cur as int)
                    == Some((end as int, pair@)),
                None => assignment_at(v@, cur as int) is None,
            },
        decreases v.len() - cur,
    {
        reveal(assignment_at);
        reveal(assignments_from);
        let (end, pair) = next.unwrap();
        let after = scan(v, end, CharClass::Blank);
        proof {
            let rest = assignments_from(v@, after as int).1;
            assert(assignments_from(v@, cur as int).1 == seq![pair@] + rest);
            lemma_view_seq_push(out@, pair);
            assert(view_seq(out@).push(pair@) + rest =~= view_seq(out@) + (seq![pair@] + rest));
        }
        out.push(pair);
        cur = after;
        next = parse_assignment(v, cur);
    }
    proof {
        assert(view_seq(out@) + Seq::<(Seq<char>, Seq<char>)>::empty() =~= view_seq(out@));
    }
    (cur, out)
}

/// One step of what follows a command's name.
enum Item {
    Redirection(usize, Redirect),
    Word(usize, Arg),
    Nothing,
}

/// The redirection at `i`, or else the word set off by blanks at `i`.
fn parse_item(v: &Vec<char>, i: usize) -> (r: Item)
    requires
        i <= v.len(),
    ensures
        match r {
            Item::Redirection(end, redirect) => i < end <= v.len() && redirect_at(v@, i as int)
                == Some((end as int, redirect@)),
            Item::Word(end, arg) => {
                let b = crate::text::run_end(v@, i as int, CharClass::Blank);
                &&& i < end <= v.len()
                &&& redirect_at(v@, i as int) is None
                &&& b > i
                &&& word_at(v@, b) == Some((end as int, arg@))
            },
            Item::Nothing => {
                let b = crate::text::run_end(v@, i as int, CharClass::Blank);
                &&& redirect_at(v@, i as int) is None
                &&& (b <= i || word_at(v@, b) is None)
            },
        },
{
    reveal(word_at);
    reveal(redirect_at);
    match parse_redirect(v, i) {
        Some((end, redirect)) => Item::Redirection(end, redirect),
        None => {
            let b = scan(v, i, CharClass::Blank);
            if b > i {
                match parse_arg(v, b) {
                    Some((end, arg)) => Item::Word(end, arg),
                    None => Item::Nothing,
                }
            } else {
                Item::Nothing
            }
        },
    }
}

/// The arguments and redirections from `i` on, and where they end.
fn parse_items(v: &Vec<char>, i: usize) -> (r: (usize, Vec<Arg>, Vec<Redirect>))
    requires
        i <= v.len(),
    ensures
        i <= r.0 <= v.len(),
        items_from(v@, i as int) == (r.0 as int, view_seq(r.1@), view_seq(r.2@)),
{
    reveal(items_from);
    let mut args: Vec<Arg> = Vec::new();
    let mut redirects: Vec<Redirect> = Vec::new();
    let mut cur = i;
    assert(view_seq(args@) + items_from(v@, cur as int).1 =~= items_from(v@, cur as int).1);
    assert(view_seq(redirects@) + items_from(v@, cur as int).2 =~= items_from(v@, cur as int).2);
    loop
        invariant
            i <= cur <= v.len(),
            items_from(v@, i as int).0 == items_from(v@, cur as int).0,
            items_from(v@, i as int).1 == view_seq(args@) + items_from(v@, cur as int).1,
            items_from(v@, i as int).2 == view_seq(redirects@) + items_from(v@, cur as int).2,
        decreases v.len() - cur,
    {
        reveal(items_from);
        match parse_item(v, cur) {
            Item::Redirection(end, redirect) => {
                proof {
                    let rest = items_from(v@, end as int);
                    assert(items_from(v@, cur as int) == (
                        rest.0,
                        rest.1,
                        seq![redirect@] + rest.2,
                    ));
                    lemma_view_seq_push(redirects@, redirect);
                    assert(view_seq(redirects@).push(redirect@) + rest.2 =~= view_seq(redirects@)
                        + (seq![redirect@] + rest.2));
                }
                redirects.push(redirect);
                cur = end;
            },
            Item::Word(end, arg) => {
                proof {
                    let rest = items_from(v@, end as int);
                    assert(items_from(v@, cur as int) == (rest.0, seq![arg@] + rest.1, rest.2));
                    lemma_view_seq_push(args@, arg);
                    assert(view_seq(args@).push(arg@) + rest.1 =~= view_seq(args@) + (seq![arg@]
                        + rest.1));
                }
                args.push(arg);
                cur = end;
            },
            Item::Nothing => {
                proof {
                    assert(items_from(v@, cur as int) == (
                        cur as int,
                        Seq::<ArgView>::empty(),
                        Seq::<RedirectView>::empty(),
                    ));
                    assert(view_seq(args@) + Seq::<ArgView>::empty() =~= view_seq(args@));
                    assert(view_seq(redirects@) + Seq::<RedirectView>::empty() =~= view_seq(
                        redirects@,
                    ));
                }
                return (cur, args, redirects);
            },
        }
    }
}

/// The command at `i`: where it ends, and what it is.
pub fn parse_single_command(v: &Vec<char>, i: usize) -> (r: Option<(usize, ParsedCommand)>)
    requires
        i <= v.len(),
    ensures
        match r {
            Some((end, command)) => i < end <= v.len() && command_at(v@, i as int) == Some(
                (end as int, command@),
            ),
            None => command_at(v@, i as int) is None,
        },
{
    reveal(command_at);
    proof {
        lemma_command_advances(v@, i as int);
    }
    let a = scan(v, i, CharClass::Blank);
    let (b, assignments) = parse_assignments(v, a);
    let (c, name) = match parse_arg(v, b) {
        Some((j, w)) => (j, Some(w.value)),
        None => (b, None),
    };
    if name.is_none() && assignments.len() == 0 {
        return None;
    }
    let (d, args, redirects) = parse_items(v, c);
    let end = scan(v, d, CharClass::Blank);
    Some((end, ParsedCommand { assignments, name, args, redirects }))
}

/// The commands behind `|` from `i` on, and where they end.
fn parse_piped(v: &Vec<char>, i: usize, first: ParsedCommand) -> (r: Option<
    (usize, Vec<ParsedCommand>),
>)
    requires
        i <= v.len(),
    ensures
        match r {
            Some((end, commands)) => {
                &&& i <= end <= v.len()
                &&& commands.len() > 0
                &&& piped_from(v@, i as int) matches Some(p)
                &&& p.0 == end
                &&& view_seq(commands@) == seq![first@] + p.1
            },
            None => piped_from(v@, i as int) is None,
        },
{
    reveal(piped_from);
    let mut commands: Vec<ParsedCommand> = Vec::new();
    let ghost mut taken: Seq<CommandView> = Seq::empty();
    proof {
        lemma_view_seq_push(commands@, first);
        assert(view_seq(Seq::<ParsedCommand>::empty()) =~= Seq::<CommandView>::empty());
        assert(Seq::<CommandView>::empty().push(first@) =~= seq![first@] + taken);
    }
    commands.push(first);
    let n = v.len();
    let mut cur = i;
    loop
        invariant
            i <= cur <= v.len() == n,
            commands.len() > 0,
            view_seq(commands@) == seq![first@] + taken,
            piped_from(v@, i as int) == match piped_from(v@, cur as int) {
                Some((end, rest)) => Some((end, taken + rest)),
                None => None,
            },
        decreases v.len() - cur,
    {
        reveal(piped_from);
        let is_pipe = cur < n && v[cur] == '|' && !(cur + 1 < n && v[cur + 1] == '|');
        assert(is_pipe == pipe_at(v@, cur as int));
        if !is_pipe {
            proof {
                assert(taken + Seq::<CommandView>::empty() =~= taken);
            }
            return Some((cur, commands));
        }
        match parse_single_command(v, cur + 1) {
            Some((end, command)) => {
                proof {
                    lemma_view_seq_push(commands@, command);
                    assert((seq![first@] + taken).push(command@) =~= seq![first@] + taken.push(
                        command@,
                    ));
                    match piped_from(v@, end as int) {
                        Some((e, rest)) => {
                            assert(taken.push(command@) + rest =~= taken + (seq![command@]
                                + rest));
                        },
                        None => {},
                    }
                    taken = taken.push(command@);
                }
                commands.push(command);
                cur = end;
            },
            None => {
                return None;
            },
        }
    }
}

/// The pipeline at `i`: where it ends, and what it is.
pub fn parse_pipeline_expr(v: &Vec<char>, i: usize) -> (r: Option<(usize, Pipeline)>)
    requires
        i <= v.len(),
    ensures
        match r {
            Some((end, pipeline)) => {
                &&& i < end <= v.len()
                &&& pipeline.wf()
                &&& pipeline_at(v@, i as int) == Some((end as int, pipeline@))
            },
            None => pipeline_at(v@, i as int) is None,
        },
{
    reveal(pipeline_at);
    proof {
        lemma_pipeline_advances(v@, i as int);
    }
    let n = v.len();
    let a = scan(v, i, CharClass::Blank);
    let negated = a < n && v[a] == '!' && (a + 1 == n || space(v[a + 1]));
    assert(negated == bang_at(v@, a as int));
    let b = if negated {
        a + 1
    } else {
        a
    };
    match parse_single_command(v, b) {
        Some((j, first)) => match parse_piped(v, j, first) {
            Some((end, commands)) => Some(
                (end, Pipeline { commands, negated, background: false }),
            ),
            None => None,
        },
        None => None,
    }
}

/// The connector at `i`: where it ends, and which it is.
pub fn parse_connector(v: &Vec<char>, i: usize) -> (r: Option<(usize, Connector)>)
    requires
        i <= v.len(),
    ensures
        match r {
            Some((end, c)) => i < end <= v.len() && connector_at(v@, i as int) == Some(
                (end as int, c),
            ),
            None => connector_at(v@, i as int) is None,
        },
{
    let n = v.len();
    let a = scan(v, i, CharClass::Blank);
    if a < n && a + 1 < n && v[a] == '&' && v[a + 1] == '&' {
        Some((a + 2, Connector::And))
    } else if a < n && a + 1 < n && v[a] == '|' && v[a + 1] == '|' {
        Some((a + 2, Connector::Or))
    } else if a < n && v[a] == ';' {
        Some((a + 1, Connector::Semi))
    } else if a < n && v[a] == '&' {
        Some((a + 1, Connector::Amp))
    } else {
        None
    }
}

/// The pipelines of the list written after `taken`, given what the rest
/// of the input holds.
pub open spec fn list_joined(
    taken: Seq<(PipelineView, Option<Connector>)>,
    rest: Option<Seq<(PipelineView, Option<Connector>)>>,
) -> Option<Seq<(PipelineView, Option<Connector>)>> {
    match rest {
        Some(r) => Some(taken + r),
        None => None,
    }
}

/// One pipeline of a list and what is written behind it.
struct ListItem {
    pipeline: Pipeline,
    /// The connector behind the pipeline.
    connector: Option<Connector>,
    /// Where the rest of the list starts.
    end: usize,
    /// Whether the list ends here.
    last: bool,
}

/// The pipeline of a list as the grammar has it: not yet marked as a
/// background pipeline.
pub open spec fn unmarked(p: PipelineView) -> PipelineView {
    PipelineView { commands: p.commands, negated: p.negated, background: false }
}

/// The pipeline at `i` and what is written behind it.
fn parse_list_item(v: &Vec<char>, i: usize) -> (r: Option<ListItem>)
    requires
        i <= v.len(),
    ensures
        match r {
            Some(item) => {
                let x = (unmarked(item.pipeline@), item.connector);
                &&& item.pipeline.wf()
                &&& item.pipeline.background == (item.connector == Some(Connector::Amp))
                &&& if item.last {
                    list_from(v@, i as int) == Some(seq![x])
                } else {
                    &&& item.connector is Some
                    &&& i < item.end <= v.len()
                    &&& list_from(v@, i as int) == list_joined(
                        seq![x],
                        list_from(v@, item.end as int),
                    )
                }
            },
            None => list_from(v@, i as int) is None,
        },
{
    reveal(list_from);
    reveal(pipeline_at);
    let n = v.len();
    proof {
        lemma_pipeline_advances(v@, i as int);
    }
    let (j, mut pipeline) = match parse_pipeline_expr(v, i) {
        Some(found) => found,
        None => {
            return None;
        },
    };
    proof {
        lemma_run_end(v@, j as int, CharClass::Blank);
    }
    let a = scan(v, j, CharClass::Blank);
    if a >= n {
        return Some(ListItem { pipeline, connector: None, end: n, last: true });
    }
    let (k, c) = match parse_connector(v, j) {
        Some(found) => found,
        None => {
            return None;
        },
    };
    let ends = match c {
        Connector::Semi => true,
        Connector::Amp => true,
        _ => false,
    };
    let b = scan(v, k, CharClass::Blank);
    pipeline.background = match c {
        Connector::Amp => true,
        _ => false,
    };
    Some(ListItem { pipeline, connector: Some(c), end: k, last: ends && b >= n })
}

/// The command list that the characters of `v` spell, `None` where they
/// spell none.
pub fn parse_list(v: &Vec<char>) -> (r: Option<Vec<CommandEntry>>)
    ensures
        match r {
            Some(entries) => {
                &&& list_from(v@, 0) matches Some(items)
                &&& view_seq(entries@) == entries_of(items)
                &&& entries.len() > 0
                &&& forall|k: int| 0 <= k < entries.len() ==> (#[trigger] entries[k]).pipeline.wf()
            },
            None => list_from(v@, 0) is None,
        },
{
    reveal(list_from);
    let mut entries: Vec<CommandEntry> = Vec::new();
    let ghost mut taken: Seq<(PipelineView, Option<Connector>)> = Seq::empty();
    let mut cur: usize = 0;
    let mut before: Option<Connector> = None;
    proof {
        match list_from(v@, 0) {
            Some(r) => {
                assert(taken + r =~= r);
            },
            None => {},
        }
    }
    loop
        invariant
            cur <= v.len(),
            entries.len() == taken.len(),
            forall|k: int| 0 <= k < entries.len() ==> (#[trigger] entries[k]).pipeline.wf(),
            forall|k: int|
                0 <= k < entries.len() ==> (#[trigger] entries[k])@ == entries_of(
                    taken.push((unmarked(entries[k].pipeline@), None)),
                )[k],
            before == if taken.len() == 0 {
                None
            } else {
                taken.last().1
            },
            list_from(v@, 0) == list_joined(taken, list_from(v@, cur as int)),
        decreases v.len() - cur,
    {
        reveal(list_from);
        let item = match parse_list_item(v, cur) {
            Some(item) => item,
            None => {
                return None;
            },
        };
        let ghost x = (unmarked(item.pipeline@), item.connector);
        let ghost old_taken = taken;
        let ghost old_entries = entries@;
        let end = item.end;
        let last = item.last;
        let connector = item.connector;
        let entry = CommandEntry { connector: before, pipeline: item.pipeline };
        entries.push(entry);
        proof {
            taken = taken.push(x);
            assert forall|k: int| 0 <= k < entries.len() implies (#[trigger] entries[k])@
                == entries_of(taken)[k] by {
                if k < old_entries.len() {
                    assert(entries[k] == old_entries[k]);
                    let probe = old_taken.push((unmarked(old_entries[k].pipeline@), None));
                    assert(probe[k] == old_taken[k]);
                    assert(taken[k] == old_taken[k]);
                    if k > 0 {
                        assert(probe[k - 1] == old_taken[k - 1]);
                        assert(taken[k - 1] == old_taken[k - 1]);
                    }
                }
            }
            assert forall|k: int| 0 <= k < entries.len() implies (#[trigger] entries[k])@
                == entries_of(taken.push((unmarked(entries[k].pipeline@), None)))[k] by {
                let probe = taken.push((unmarked(entries[k].pipeline@), None));
                assert(probe[k] == taken[k]);
                if k > 0 {
                    assert(probe[k - 1] == taken[k - 1]);
                }
            }
        }
        if last {
            proof {
                assert(old_taken + seq![x] =~= taken);
                assert(view_seq(entries@) =~= entries_of(taken));
            }
            return Some(entries);
        }
        proof {
            match list_from(v@, end as int) {
                Some(rest) => {
                    assert(old_taken + (seq![x] + rest) =~= taken + rest);
                },
                None => {},
            }
        }
        before = connector;
        cur = end;
    }
}

/// What a line of input turns out to be.
#[derive(Debug, PartialEq, Eq, Clone)]
pub enum ParsedLine {
    /// Nothing to run: the line is blank or a comment, or its expansion is blank.
    Empty,
    /// The line does not follow the grammar.
    Invalid,
    /// The command list that the line spells.
    Commands(Vec<CommandEntry>),
}

/// What a `ParsedLine` holds.
pub enum LineView {
    Empty,
    Invalid,
    Commands(Seq<EntryView>),
}

impl View for ParsedLine {
    type V = LineView;

    open spec fn view(&self) -> LineView {
        match self {
            ParsedLine::Empty => LineView::Empty,
            ParsedLine::Invalid => LineView::Invalid,
            ParsedLine::Commands(entries) => LineView::Commands(view_seq(entries@)),
        }
    }
}

/// What a line of input means under the variables `vars`.
///
/// A line that is blank, or whose first character after trimming is `#`,
/// is empty. Any other line is expanded and trimmed; it is empty where
/// nothing is left, and else is the list that the grammar reads from it.
pub open spec fn spec_parse(input: Seq<char>, vars: Map<Seq<char>, Seq<char>>) -> LineView {
    let t = trimmed(input);
    if t.len() == 0 || t[0] == '#' {
        LineView::Empty
    } else {
        let e = trimmed(spec_expand(input, vars));
        if e.len() == 0 {
            LineView::Empty
        } else {
            match list_from(e, 0) {
                Some(items) => LineView::Commands(entries_of(items)),
                None => LineView::Invalid,
            }
        }
    }
}

/// Reads a line of input under the variables `vars`.
pub fn parse(input: &str, vars: &StrMap) -> (r: ParsedLine)
    requires
        vars.wf(),
    ensures
        r@ == spec_parse(input@, vars@),
        r matches ParsedLine::Commands(entries) ==> entries.len() > 0 && forall|k: int|
            0 <= k < entries.len() ==> (#[trigger] entries[k]).pipeline.wf(),
{
    let raw = chars_of(input);
    let t = trim(&raw);
    if t.len() == 0 || t[0] == '#' {
        return ParsedLine::Empty;
    }
    let expanded = expand_chars(&raw, vars);
    let e = trim(&expanded);
    if e.len() == 0 {
        return ParsedLine::Empty;
    }
    match parse_list(&e) {
        Some(entries) => ParsedLine::Commands(entries),
        None => ParsedLine::Invalid,
    }
}

/// The command list of a line of input, `None` where it has none: the line
/// is empty or a comment, or does not follow the grammar.
pub fn parse_input(input: &str, vars: &StrMap) -> (r: Option<Vec<CommandEntry>>)
    requires
        vars.wf(),
    ensures
        match r {
            Some(entries) => spec_parse(input@, vars@) == LineView::Commands(view_seq(entries@))
                && entries.len() > 0,
            None => !(spec_parse(input@, vars@) is Commands),
        },
{
    match parse(input, vars) {
        ParsedLine::Commands(entries) => Some(entries),
        _ => None,
    }
}

/// The command list of a line of input; the same as `parse_input`.
pub fn parse_pipeline(input: &str, vars: &StrMap) -> (r: Option<Vec<CommandEntry>>)
    requires
        vars.wf(),
    ensures
        match r {
            Some(entries) => spec_parse(input@, vars@) == LineView::Commands(view_seq(entries@))
                && entries.len() > 0,
            None => !(spec_parse(input@, vars@) is Commands),
        },
{
    parse_input(input, vars)
}

/// The command of a line that holds exactly one pipeline of exactly one
/// command, and `None` for any other line.
pub fn parse_line(input: &str, vars: &StrMap) -> (r: Option<ParsedCommand>)
    requires
        vars.wf(),
    ensures
        match r {
            Some(command) => {
                &&& spec_parse(input@, vars@) matches LineView::Commands(entries)
                &&& entries.len() == 1
                &&& entries[0].pipeline.commands == seq![command@]
            },
            None => !(spec_parse(input@, vars@) matches LineView::Commands(entries)
                && entries.len() == 1 && entries[0].pipeline.commands.len() == 1),
        },
{
    match parse_input(input, vars) {
        Some(mut entries) => {
            if entries.len() == 1 && entries[0].pipeline.commands.len() == 1 {
                let ghost es = view_seq(entries@);
                let mut entry = entries.remove(0);
                let command = entry.pipeline.commands.remove(0);
                proof {
                    assert(es[0].pipeline.commands =~= seq![command@]);
                }
                Some(command)
            } else {
                proof {
                    let es = view_seq(entries@);
                    if entries.len() == 1 {
                        assert(es[0].pipeline.commands.len() == entries[0].pipeline.commands.len());
                    }
                }
                None
            }
        },
        None => None,
    }
}

} // verus!
