//! `source`: which lines of a file are run, and how deep files may source
//! one another.

use crate::ast::{lemma_view_seq_push, view_seq};
use crate::state::{lines_from, split_lines, ShellState};
use crate::text::{chars_of, string_of, trim, trimmed};
use vstd::prelude::*;

verus! {

/// How many files may be sourced one inside the other.
pub const MAX_SOURCE_DEPTH: u32 = 64;

/// The lines of a file that are run, each trimmed: those that are neither
/// blank nor a comment, in order.
pub open spec fn runnable(lines: Seq<Seq<char>>) -> Seq<Seq<char>>
    decreases lines.len(),
{
    if lines.len() == 0 {
        Seq::empty()
    } else {
        let t = trimmed(lines.last());
        if t.len() == 0 || t[0] == '#' {
            runnable(lines.drop_last())
        } else {
            runnable(lines.drop_last()).push(t)
        }
    }
}

/// The lines of `contents` that `source` runs.
pub fn script_lines(contents: &str) -> (r: Vec<String>)
    ensures
        view_seq(r@) == runnable(lines_from(contents@, 0)),
{
    let lines = split_lines(contents);
    let ghost ls = view_seq(lines@);
    let mut out: Vec<String> = Vec::new();
    let mut i: usize = 0;
    assert(view_seq(out@) =~= runnable(ls.take(0)));
    while i < lines.len()
        invariant
            0 <= i <= lines.len(),
            ls == view_seq(lines@),
            view_seq(out@) == runnable(ls.take(i as int)),
        decreases lines.len() - i,
    {
        proof {
            assert(ls.take(i + 1).drop_last() =~= ls.take(i as int));
            assert(ls.take(i + 1).last() == lines[i as int]@);
        }
        let t = trim(&chars_of(lines[i].as_str()));
        if !(t.len() == 0 || t[0] == '#') {
            let line = string_of(&t);
            proof {
                lemma_view_seq_push(out@, line);
            }
            out.push(line);
        }
        i += 1;
    }
    assert(ls.take(i as int) =~= ls);
    out
}

/// Enters a sourced file, unless the files are nested too deep already;
/// says whether it did.
pub fn source_enter(state: &mut ShellState) -> (r: bool)
    ensures
        r == (old(state).source_depth < MAX_SOURCE_DEPTH),
        final(state).source_depth == if r {
            (old(state).source_depth + 1) as u32
        } else {
            old(state).source_depth
        },
        final(state).previous_dir == old(state).previous_dir,
        final(state).dir_stack == old(state).dir_stack,
        final(state).aliases == old(state).aliases,
        final(state).variables == old(state).variables,
        final(state).env == old(state).env,
        final(state).set_options == old(state).set_options,
        final(state).history == old(state).history,
        final(state).jobs == old(state).jobs,
{
    if state.source_depth >= MAX_SOURCE_DEPTH {
        false
    } else {
        state.source_depth = state.source_depth + 1;
        true
    }
}

/// Leaves a sourced file.
pub fn source_leave(state: &mut ShellState)
    ensures
        final(state).source_depth == if old(state).source_depth > 0 {
            (old(state).source_depth - 1) as u32
        } else {
            0
        },
        final(state).previous_dir == old(state).previous_dir,
        final(state).dir_stack == old(state).dir_stack,
        final(state).aliases == old(state).aliases,
        final(state).variables == old(state).variables,
        final(state).env == old(state).env,
        final(state).set_options == old(state).set_options,
        final(state).history == old(state).history,
        final(state).jobs == old(state).jobs,
{
    if state.source_depth > 0 {
        state.source_depth = state.source_depth - 1;
    }
}

} // verus!
