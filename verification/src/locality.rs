//! The grammar reads a construct the same wherever it stands: what it
//! finds at a position depends on the input from that position on, and the
//! positions that it reports move with the input.
//!
//! Each lemma compares the reading of `s` at `i + j` with the reading of
//! `s.skip(i)` at `j`.

use crate::grammar::{
    assignment_at, assignments_from, bang_at, command_at, connector_at, items_from,
    lemma_assignment_advances, lemma_command_advances, lemma_pipeline_advances,
    lemma_redirect_advances, lemma_segment_advances, lemma_word_advances, list_from, pipe_at,
    piped_from, pipeline_at, redirect_at, redirect_op_at, segment_at, segments_from, word_at,
};
use crate::text::{lemma_run_end, run_end, CharClass};
use vstd::prelude::*;

verus! {

/// `r` with its end moved by `by`.
pub open spec fn moved<T>(r: Option<(int, T)>, by: int) -> Option<(int, T)> {
    match r {
        Some((end, x)) => Some((end + by, x)),
        None => None,
    }
}

/// A run ends where it ends in the input from `i` on.
pub proof fn lemma_run_moves(s: Seq<char>, i: int, j: int, k: CharClass)
    requires
        0 <= i,
        0 <= j,
        i + j <= s.len(),
    ensures
        run_end(s, i + j, k) == i + run_end(s.skip(i), j, k),
    decreases s.len() - (i + j),
{
    let t = s.skip(i);
    if i + j < s.len() {
        assert(t[j] == s[i + j]);
        if crate::text::in_class(k, s[i + j]) {
            lemma_run_moves(s, i, j + 1, k);
        }
    }
}

/// A segment is read the same in the input from `i` on.
pub proof fn lemma_segment_moves(s: Seq<char>, i: int, j: int)
    requires
        0 <= i,
        0 <= j,
        i + j <= s.len(),
    ensures
        segment_at(s, i + j) == match segment_at(s.skip(i), j) {
            Some((end, text, quoted)) => Some((end + i, text, quoted)),
            None => None,
        },
{
    let t = s.skip(i);
    if i + j < s.len() {
        let c = s[i + j];
        assert(t[j] == c);
        if c == '"' || c == '\'' {
            lemma_run_moves(s, i, j + 1, CharClass::Until(c));
            lemma_run_end(t, j + 1, CharClass::Until(c));
            let e = run_end(t, j + 1, CharClass::Until(c));
            if e < t.len() {
                assert(s.subrange(i + j + 1, i + e) =~= t.subrange(j + 1, e));
            }
        } else if crate::text::is_word_char(c) {
            lemma_run_moves(s, i, j, CharClass::Word);
            lemma_run_end(t, j, CharClass::Word);
            let e = run_end(t, j, CharClass::Word);
            assert(s.subrange(i + j, i + e) =~= t.subrange(j, e));
        }
    }
}

/// Adjacent segments are read the same in the input from `i` on.
pub proof fn lemma_segments_move(s: Seq<char>, i: int, j: int)
    requires
        0 <= i,
        0 <= j,
        i + j <= s.len(),
    ensures
        segments_from(s, i + j) == (
            segments_from(s.skip(i), j).0 + i,
            segments_from(s.skip(i), j).1,
            segments_from(s.skip(i), j).2,
        ),
    decreases s.len() - (i + j),
{
    let t = s.skip(i);
    lemma_segment_moves(s, i, j);
    lemma_segment_advances(t, j);
    match segment_at(t, j) {
        Some((end, _, _)) => {
            lemma_segments_move(s, i, end);
        },
        None => {},
    }
}

/// A word is read the same in the input from `i` on.
pub proof fn lemma_word_moves(s: Seq<char>, i: int, j: int)
    requires
        0 <= i,
        0 <= j,
        i + j <= s.len(),
    ensures
        word_at(s, i + j) == moved(word_at(s.skip(i), j), i),
{
    reveal(word_at);
    let t = s.skip(i);
    lemma_segment_moves(s, i, j);
    lemma_segment_advances(t, j);
    match segment_at(t, j) {
        Some((end, _, _)) => {
            lemma_segments_move(s, i, end);
        },
        None => {},
    }
}

/// A redirection is read the same in the input from `i` on.
pub proof fn lemma_redirect_moves(s: Seq<char>, i: int, j: int)
    requires
        0 <= i,
        0 <= j,
        i + j <= s.len(),
    ensures
        redirect_at(s, i + j) == moved(redirect_at(s.skip(i), j), i),
{
    reveal(redirect_at);
    let t = s.skip(i);
    lemma_run_moves(s, i, j, CharClass::Blank);
    lemma_run_end(t, j, CharClass::Blank);
    let a = run_end(t, j, CharClass::Blank);
    if a < t.len() {
        assert(t[a] == s[i + a]);
    }
    if a + 1 < t.len() {
        assert(t[a + 1] == s[i + a + 1]);
    }
    match redirect_op_at(t, a) {
        Some((after, kind)) => {
            assert(redirect_op_at(s, i + a) == Some((after + i, kind)));
            lemma_run_moves(s, i, after, CharClass::Blank);
            lemma_run_end(t, after, CharClass::Blank);
            lemma_word_moves(s, i, run_end(t, after, CharClass::Blank));
        },
        None => {
            assert(redirect_op_at(s, i + a) is None);
        },
    }
}

/// An assignment is read the same in the input from `i` on.
pub proof fn lemma_assignment_moves(s: Seq<char>, i: int, j: int)
    requires
        0 <= i,
        0 <= j,
        i + j <= s.len(),
    ensures
        assignment_at(s, i + j) == moved(assignment_at(s.skip(i), j), i),
{
    reveal(assignment_at);
    let t = s.skip(i);
    if i + j < s.len() {
        assert(t[j] == s[i + j]);
        if crate::text::is_ident_start(t[j]) {
            lemma_run_moves(s, i, j, CharClass::Ident);
            lemma_run_end(t, j, CharClass::Ident);
            let e = run_end(t, j, CharClass::Ident);
            if e < t.len() {
                assert(t[e] == s[i + e]);
                if t[e] == '=' {
                    lemma_word_moves(s, i, e + 1);
                    assert(s.subrange(i + j, i + e) =~= t.subrange(j, e));
                }
            }
        }
    }
}

/// Assignments are read the same in the input from `i` on.
pub proof fn lemma_assignments_move(s: Seq<char>, i: int, j: int)
    requires
        0 <= i,
        0 <= j,
        i + j <= s.len(),
    ensures
        assignments_from(s, i + j) == (
            assignments_from(s.skip(i), j).0 + i,
            assignments_from(s.skip(i), j).1,
        ),
    decreases s.len() - (i + j),
{
    reveal(assignment_at);
    reveal(assignments_from);
    let t = s.skip(i);
    lemma_assignment_moves(s, i, j);
    lemma_assignment_advances(t, j);
    match assignment_at(t, j) {
        Some((end, _)) => {
            lemma_run_moves(s, i, end, CharClass::Blank);
            lemma_run_end(t, end, CharClass::Blank);
            lemma_assignments_move(s, i, run_end(t, end, CharClass::Blank));
        },
        None => {},
    }
}

/// Arguments and redirections are read the same in the input from `i` on.
pub proof fn lemma_items_move(s: Seq<char>, i: int, j: int)
    requires
        0 <= i,
        0 <= j,
        i + j <= s.len(),
    ensures
        items_from(s, i + j) == (
            items_from(s.skip(i), j).0 + i,
            items_from(s.skip(i), j).1,
            items_from(s.skip(i), j).2,
        ),
    decreases s.len() - (i + j),
{
    reveal(word_at);
    reveal(redirect_at);
    reveal(items_from);
    let t = s.skip(i);
    lemma_redirect_moves(s, i, j);
    lemma_redirect_advances(t, j);
    match redirect_at(t, j) {
        Some((end, _)) => {
            lemma_items_move(s, i, end);
        },
        None => {
            lemma_run_moves(s, i, j, CharClass::Blank);
            lemma_run_end(t, j, CharClass::Blank);
            let b = run_end(t, j, CharClass::Blank);
            if b > j {
                lemma_word_moves(s, i, b);
                lemma_word_advances(t, b);
                match word_at(t, b) {
                    Some((end, _)) => {
                        lemma_items_move(s, i, end);
                    },
                    None => {},
                }
            }
        },
    }
}

/// A command is read the same in the input from `i` on.
pub proof fn lemma_command_moves(s: Seq<char>, i: int, j: int)
    requires
        0 <= i,
        0 <= j,
        i + j <= s.len(),
    ensures
        command_at(s, i + j) == moved(command_at(s.skip(i), j), i),
{
    reveal(word_at);
    reveal(assignments_from);
    reveal(items_from);
    reveal(command_at);
    let t = s.skip(i);
    lemma_run_moves(s, i, j, CharClass::Blank);
    lemma_run_end(t, j, CharClass::Blank);
    let a = run_end(t, j, CharClass::Blank);
    lemma_assignments_move(s, i, a);
    crate::grammar::lemma_assignments_bounds(t, a);
    let b = assignments_from(t, a).0;
    lemma_word_moves(s, i, b);
    lemma_word_advances(t, b);
    let c = match word_at(t, b) {
        Some((end, _)) => end,
        None => b,
    };
    lemma_items_move(s, i, c);
    crate::grammar::lemma_items_bounds(t, c);
    let d = items_from(t, c).0;
    lemma_run_moves(s, i, d, CharClass::Blank);
}

/// The commands behind `|` are read the same in the input from `i` on.
pub proof fn lemma_piped_moves(s: Seq<char>, i: int, j: int)
    requires
        0 <= i,
        0 <= j,
        i + j <= s.len(),
    ensures
        piped_from(s, i + j) == moved(piped_from(s.skip(i), j), i),
    decreases s.len() - (i + j),
{
    reveal(command_at);
    reveal(piped_from);
    let t = s.skip(i);
    if i + j < s.len() {
        assert(t[j] == s[i + j]);
    }
    if i + j + 1 < s.len() {
        assert(t[j + 1] == s[i + j + 1]);
    }
    if pipe_at(t, j) {
        lemma_command_moves(s, i, j + 1);
        lemma_command_advances(t, j + 1);
        match command_at(t, j + 1) {
            Some((end, _)) => {
                lemma_piped_moves(s, i, end);
            },
            None => {},
        }
    }
}

/// A pipeline is read the same in the input from `i` on.
pub proof fn lemma_pipeline_moves(s: Seq<char>, i: int, j: int)
    requires
        0 <= i,
        0 <= j,
        i + j <= s.len(),
    ensures
        pipeline_at(s, i + j) == moved(pipeline_at(s.skip(i), j), i),
{
    reveal(command_at);
    reveal(pipeline_at);
    let t = s.skip(i);
    lemma_run_moves(s, i, j, CharClass::Blank);
    lemma_run_end(t, j, CharClass::Blank);
    let a = run_end(t, j, CharClass::Blank);
    if a < t.len() {
        assert(t[a] == s[i + a]);
    }
    if a + 1 < t.len() {
        assert(t[a + 1] == s[i + a + 1]);
    }
    assert(bang_at(t, a) == bang_at(s, i + a));
    let b = if bang_at(t, a) {
        a + 1
    } else {
        a
    };
    lemma_command_moves(s, i, b);
    lemma_command_advances(t, b);
    match command_at(t, b) {
        Some((end, _)) => {
            lemma_piped_moves(s, i, end);
        },
        None => {},
    }
}

/// A connector is read the same in the input from `i` on.
pub proof fn lemma_connector_moves(s: Seq<char>, i: int, j: int)
    requires
        0 <= i,
        0 <= j,
        i + j <= s.len(),
    ensures
        connector_at(s, i + j) == moved(connector_at(s.skip(i), j), i),
{
    let t = s.skip(i);
    lemma_run_moves(s, i, j, CharClass::Blank);
    lemma_run_end(t, j, CharClass::Blank);
    let a = run_end(t, j, CharClass::Blank);
    if a < t.len() {
        assert(t[a] == s[i + a]);
    }
    if a + 1 < t.len() {
        assert(t[a + 1] == s[i + a + 1]);
    }
}

/// A list is read the same in the input from `i` on.
pub proof fn lemma_list_moves(s: Seq<char>, i: int, j: int)
    requires
        0 <= i,
        0 <= j,
        i + j <= s.len(),
    ensures
        list_from(s, i + j) == list_from(s.skip(i), j),
    decreases s.len() - (i + j),
{
    reveal(pipeline_at);
    reveal(list_from);
    let t = s.skip(i);
    lemma_pipeline_moves(s, i, j);
    lemma_pipeline_advances(t, j);
    match pipeline_at(t, j) {
        Some((end, _)) => {
            lemma_run_moves(s, i, end, CharClass::Blank);
            lemma_run_end(t, end, CharClass::Blank);
            if run_end(t, end, CharClass::Blank) < t.len() {
                lemma_connector_moves(s, i, end);
                match connector_at(t, end) {
                    Some((k, c)) => {
                        lemma_run_moves(s, i, k, CharClass::Blank);
                        if !(crate::grammar::ends_list(c) && run_end(t, k, CharClass::Blank)
                            >= t.len()) {
                            lemma_list_moves(s, i, k);
                        }
                    },
                    None => {},
                }
            }
        },
        None => {},
    }
}

} // verus!
