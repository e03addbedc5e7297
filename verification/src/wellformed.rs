//! What the grammar reads is well formed: every command list that it reads
//! is one that can be written out and read back.

use crate::expand::is_identifier;
use crate::grammar::{
    assignment_at, assignments_from, command_at, connector_at, ends_list, items_from,
    lemma_assignment_advances, lemma_command_advances, lemma_pipeline_advances,
    lemma_redirect_advances, lemma_word_advances, list_from, pipe_at, piped_from, pipeline_at,
    redirect_at, segment_at, segments_from, word_at,
};
use crate::parser::{spec_parse, LineView};
use crate::spelling::{
    lemma_items_as_entries, lemma_line_reads_back, named_by_identifiers, quotable,
    quotable_args, spell_line, wf_command, wf_commands, wf_entries, wf_items, wf_pipeline,
};
use crate::text::{lemma_run_end, run_end, CharClass};
use vstd::prelude::*;

verus! {

/// A word that counts as quoted lacks the quote that it was written in.
pub proof fn lemma_word_is_quotable(s: Seq<char>, i: int)
    ensures
        word_at(s, i) matches Some(w) ==> (w.1.quoted ==> quotable(w.1.value)),
{
    reveal(word_at);
    match segment_at(s, i) {
        Some((j, text, quoted)) => {
            if quoted && segments_from(s, j).2 == 0 {
                let q = s[i];
                lemma_run_end(s, i + 1, CharClass::Until(q));
                assert(segment_at(s, j) is None);
                assert(text + segments_from(s, j).1 =~= text);
                assert(!text.contains(q)) by {
                    if text.contains(q) {
                        let x = choose|x: int| 0 <= x < text.len() && text[x] == q;
                        assert(text[x] == s[i + 1 + x]);
                        assert(crate::text::in_class(CharClass::Until(q), s[i + 1 + x]));
                    }
                }
            }
        },
        None => {},
    }
}

/// The name of an assignment is an identifier.
pub proof fn lemma_assignment_is_named(s: Seq<char>, i: int)
    ensures
        assignment_at(s, i) matches Some(a) ==> is_identifier(a.1.0),
{
    reveal(assignment_at);
    if 0 <= i < s.len() && crate::text::is_ident_start(s[i]) {
        lemma_run_end(s, i, CharClass::Ident);
        crate::text::lemma_run_end_advances(s, i, CharClass::Ident);
        let j = run_end(s, i, CharClass::Ident);
        let name = s.subrange(i, j);
        assert(name[0] == s[i]);
        assert forall|x: int| 0 <= x < name.len() implies crate::text::is_ident_char(
            #[trigger] name[x],
        ) by {
            assert(name[x] == s[i + x]);
            assert(crate::text::in_class(CharClass::Ident, s[i + x]));
        }
    }
}

/// The names of assignments are identifiers.
pub proof fn lemma_assignments_are_named(s: Seq<char>, i: int)
    requires
        0 <= i <= s.len(),
    ensures
        named_by_identifiers(assignments_from(s, i).1),
        i <= assignments_from(s, i).0 <= s.len(),
        assignments_from(s, i).1.len() > 0 ==> i < assignments_from(s, i).0,
        assignments_from(s, i).1.len() > 0 && assignments_from(s, i).0 < s.len()
            ==> !crate::text::is_blank(s[assignments_from(s, i).0]),
    decreases s.len() - i,
{
    reveal(assignments_from);
    lemma_assignment_advances(s, i);
    lemma_assignment_is_named(s, i);
    match assignment_at(s, i) {
        Some((j, a)) => {
            lemma_run_end(s, j, CharClass::Blank);
            let k = run_end(s, j, CharClass::Blank);
            lemma_assignments_are_named(s, k);
            let rest = assignments_from(s, k).1;
            let all = seq![a] + rest;
            assert forall|x: int| 0 <= x < all.len() implies is_identifier(#[trigger] all[x].0) by {
                if x > 0 {
                    assert(all[x] == rest[x - 1]);
                }
            }
            if rest.len() == 0 {
                reveal(assignment_at);
                assert(assignments_from(s, k).0 == k);
            }
        },
        None => {},
    }
}

/// The arguments that count as quoted lack the quote that they were
/// written in.
pub proof fn lemma_items_are_quotable(s: Seq<char>, i: int)
    requires
        0 <= i <= s.len(),
    ensures
        quotable_args(items_from(s, i).1),
    decreases s.len() - i,
{
    reveal(items_from);
    lemma_redirect_advances(s, i);
    match redirect_at(s, i) {
        Some((j, _)) => {
            lemma_items_are_quotable(s, j);
        },
        None => {
            let b = run_end(s, i, CharClass::Blank);
            lemma_run_end(s, i, CharClass::Blank);
            lemma_word_advances(s, b);
            lemma_word_is_quotable(s, b);
            if b > i {
                match word_at(s, b) {
                    Some((j, w)) => {
                        lemma_items_are_quotable(s, j);
                        let rest = items_from(s, j).1;
                        let all = seq![w] + rest;
                        assert forall|x: int| 0 <= x < all.len() implies ((#[trigger] all[x]).quoted
                            ==> quotable(all[x].value)) by {
                            if x > 0 {
                                assert(all[x] == rest[x - 1]);
                            }
                        }
                    },
                    None => {},
                }
            }
        },
    }
}

/// Where no blank stands, arguments are read only behind a redirection.
pub proof fn lemma_items_behind_nothing(s: Seq<char>, b: int)
    requires
        0 <= b <= s.len(),
        b < s.len() ==> !crate::text::is_blank(s[b]),
    ensures
        items_from(s, b).1.len() > 0 ==> items_from(s, b).2.len() > 0,
{
    reveal(items_from);
}

/// Every command that the grammar reads is well formed.
pub proof fn lemma_command_is_wf(s: Seq<char>, i: int)
    requires
        0 <= i <= s.len(),
    ensures
        command_at(s, i) matches Some(c) ==> wf_command(c.1),
{
    reveal(command_at);
    let a = run_end(s, i, CharClass::Blank);
    lemma_run_end(s, i, CharClass::Blank);
    lemma_assignments_are_named(s, a);
    let b = assignments_from(s, a).0;
    lemma_word_advances(s, b);
    match word_at(s, b) {
        Some((j, _)) => {
            lemma_items_are_quotable(s, j);
        },
        None => {
            lemma_items_are_quotable(s, b);
            if assignments_from(s, a).1.len() > 0 {
                lemma_items_behind_nothing(s, b);
            }
        },
    }
}

/// Every command behind a `|` that the grammar reads is well formed.
pub proof fn lemma_piped_are_wf(s: Seq<char>, i: int)
    requires
        0 <= i <= s.len(),
    ensures
        piped_from(s, i) matches Some(r) ==> wf_commands(r.1),
    decreases s.len() - i,
{
    reveal(piped_from);
    if pipe_at(s, i) {
        lemma_command_advances(s, i + 1);
        lemma_command_is_wf(s, i + 1);
        match command_at(s, i + 1) {
            Some((j, c)) => {
                lemma_piped_are_wf(s, j);
                match piped_from(s, j) {
                    Some((_, rest)) => {
                        let all = seq![c] + rest;
                        assert forall|x: int| 0 <= x < all.len() implies wf_command(
                            #[trigger] all[x],
                        ) by {
                            if x > 0 {
                                assert(all[x] == rest[x - 1]);
                            }
                        }
                    },
                    None => {},
                }
            },
            None => {},
        }
    }
}

/// Every pipeline that the grammar reads is well formed, and not marked
/// as a background pipeline.
pub proof fn lemma_pipeline_is_wf(s: Seq<char>, i: int)
    requires
        0 <= i <= s.len(),
    ensures
        pipeline_at(s, i) matches Some(p) ==> wf_pipeline(p.1) && !p.1.background,
{
    reveal(pipeline_at);
    let a = run_end(s, i, CharClass::Blank);
    lemma_run_end(s, i, CharClass::Blank);
    let b = if crate::grammar::bang_at(s, a) {
        a + 1
    } else {
        a
    };
    lemma_command_advances(s, b);
    lemma_command_is_wf(s, b);
    match command_at(s, b) {
        Some((j, c)) => {
            lemma_piped_are_wf(s, j);
            match piped_from(s, j) {
                Some((_, rest)) => {
                    let all = seq![c] + rest;
                    assert forall|x: int| 0 <= x < all.len() implies wf_command(
                        #[trigger] all[x],
                    ) by {
                        if x > 0 {
                            assert(all[x] == rest[x - 1]);
                        }
                    }
                },
                None => {},
            }
        },
        None => {},
    }
}

/// Every list that the grammar reads is well formed.
pub proof fn lemma_list_is_wf(s: Seq<char>, i: int)
    requires
        0 <= i <= s.len(),
    ensures
        list_from(s, i) matches Some(items) ==> wf_items(items),
    decreases s.len() - i,
{
    reveal(list_from);
    lemma_pipeline_advances(s, i);
    lemma_pipeline_is_wf(s, i);
    match pipeline_at(s, i) {
        Some((j, p)) => {
            lemma_run_end(s, j, CharClass::Blank);
            if run_end(s, j, CharClass::Blank) < s.len() {
                match connector_at(s, j) {
                    Some((k, c)) => {
                        if !(ends_list(c) && run_end(s, k, CharClass::Blank) >= s.len()) {
                            lemma_list_is_wf(s, k);
                            match list_from(s, k) {
                                Some(rest) => {
                                    let all = seq![(p, Some(c))] + rest;
                                    assert forall|x: int| 0 <= x < all.len() implies {
                                        &&& wf_pipeline((#[trigger] all[x]).0)
                                        &&& !all[x].0.background
                                        &&& x + 1 < all.len() ==> all[x].1 is Some
                                        &&& x + 1 == all.len() ==> (all[x].1 matches Some(c)
                                            ==> ends_list(c))
                                    } by {
                                        if x > 0 {
                                            assert(all[x] == rest[x - 1]);
                                        }
                                    }
                                },
                                None => {},
                            }
                        }
                    },
                    None => {},
                }
            }
        },
        None => {},
    }
}

/// Every command list that a line is read as is well formed.
pub proof fn lemma_parsed_is_wf(line: Seq<char>, vars: Map<Seq<char>, Seq<char>>)
    ensures
        spec_parse(line, vars) matches LineView::Commands(entries) ==> wf_entries(entries),
{
    let e = crate::text::trimmed(crate::expand::spec_expand(line, vars));
    lemma_list_is_wf(e, 0);
    match list_from(e, 0) {
        Some(items) => {
            lemma_items_as_entries(items);
        },
        None => {},
    }
}

/// Reading a line, writing out the command list that it was read as, and
/// reading what was written gives the same command list again, whatever the
/// variables at the second reading.
pub proof fn lemma_round_trip(
    line: Seq<char>,
    vars: Map<Seq<char>, Seq<char>>,
    later: Map<Seq<char>, Seq<char>>,
)
    ensures
        spec_parse(line, vars) matches LineView::Commands(entries) ==> spec_parse(
            spell_line(entries),
            later,
        ) == spec_parse(line, vars),
{
    lemma_parsed_is_wf(line, vars);
    match spec_parse(line, vars) {
        LineView::Commands(entries) => {
            lemma_line_reads_back(entries, later);
        },
        _ => {},
    }
}

} // verus!
