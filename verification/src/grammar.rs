//! The grammar of a command line, as functions on a sequence of characters
//! and a position in it.
//!
//! ```text
//! list       := pipeline (connector pipeline)* [';' | '&']
//! connector  := ';' | '&&' | '||' | '&'
//! pipeline   := ['!'] command ('|' command)*
//! command    := assignment* [word] (redirect | blank+ word)*
//! assignment := identifier '=' [word]
//! redirect   := blank* ('>>' | '>' | '<') blank* word
//! word       := segment+
//! segment    := '"' (any but '"')* '"' | '\'' (any but '\'')* '\'' | unquoted+
//! ```
//!
//! Each function answers for the construct that starts at index `i`: `None`
//! where there is none, else where it ends and what it holds.

use crate::ast::{
    ArgView, CommandView, Connector, EntryView, PipelineView, RedirectKind, RedirectView,
};
use crate::text::{
    is_ident_start, is_space, is_word_char, lemma_run_end, lemma_run_end_advances, run_end,
    CharClass,
};
use vstd::prelude::*;

verus! {

/// One segment of a word: where it ends, its text, and whether it was quoted.
///
/// A quoted segment runs to the next quote of its kind and is no segment
/// where that quote is missing; nothing is special inside it.
pub open spec fn segment_at(s: Seq<char>, i: int) -> Option<(int, Seq<char>, bool)> {
    if i < 0 || i >= s.len() {
        None
    } else if s[i] == '"' || s[i] == '\'' {
        let j = run_end(s, i + 1, CharClass::Until(s[i]));
        if j < s.len() {
            Some((j + 1, s.subrange(i + 1, j), true))
        } else {
            None
        }
    } else if is_word_char(s[i]) {
        let j = run_end(s, i, CharClass::Word);
        Some((j, s.subrange(i, j), false))
    } else {
        None
    }
}

/// A segment is not empty as input: it ends after it starts, inside `s`.
pub proof fn lemma_segment_advances(s: Seq<char>, i: int)
    ensures
        segment_at(s, i) matches Some(r) ==> 0 <= i < r.0 <= s.len(),
{
    if 0 <= i < s.len() {
        if s[i] == '"' || s[i] == '\'' {
            lemma_run_end(s, i + 1, CharClass::Until(s[i]));
        } else if is_word_char(s[i]) {
            lemma_run_end_advances(s, i, CharClass::Word);
        }
    }
}

/// The segments that follow one another from `i`: where the last ends,
/// their texts joined, and how many there are.
pub open spec fn segments_from(s: Seq<char>, i: int) -> (int, Seq<char>, nat)
    decreases s.len() - i,
{
    match segment_at(s, i) {
        Some((j, text, _)) => {
            proof {
                lemma_segment_advances(s, i);
            }
            let (end, rest, n) = segments_from(s, j);
            (end, text + rest, n + 1)
        },
        None => (i, Seq::empty(), 0),
    }
}

/// A word: one or more adjacent segments. Its value is their texts joined;
/// it counts as quoted when it is a single quoted segment.
#[verifier::opaque]
pub open spec fn word_at(s: Seq<char>, i: int) -> Option<(int, ArgView)> {
    match segment_at(s, i) {
        Some((j, text, quoted)) => {
            let (end, rest, n) = segments_from(s, j);
            Some((end, ArgView { value: text + rest, quoted: quoted && n == 0 }))
        },
        None => None,
    }
}

/// Adjacent segments end inside the input, not before they start.
pub proof fn lemma_segments_bounds(s: Seq<char>, i: int)
    requires
        0 <= i <= s.len(),
    ensures
        i <= segments_from(s, i).0 <= s.len(),
    decreases s.len() - i,
{
    lemma_segment_advances(s, i);
    match segment_at(s, i) {
        Some((j, _, _)) => {
            lemma_segments_bounds(s, j);
        },
        None => {},
    }
}

/// A word is not empty as input.
pub proof fn lemma_word_advances(s: Seq<char>, i: int)
    ensures
        word_at(s, i) matches Some(r) ==> 0 <= i < r.0 <= s.len(),
{
    reveal(word_at);
    lemma_segment_advances(s, i);
    match segment_at(s, i) {
        Some((j, _, _)) => {
            lemma_segments_bounds(s, j);
        },
        None => {},
    }
}

/// The redirection operator at `i`: where it ends and what it is.
pub open spec fn redirect_op_at(s: Seq<char>, i: int) -> Option<(int, RedirectKind)> {
    if 0 <= i && i + 1 < s.len() && s[i] == '>' && s[i + 1] == '>' {
        Some((i + 2, RedirectKind::StdoutAppend))
    } else if 0 <= i < s.len() && s[i] == '>' {
        Some((i + 1, RedirectKind::StdoutOverwrite))
    } else if 0 <= i < s.len() && s[i] == '<' {
        Some((i + 1, RedirectKind::StdinFrom))
    } else {
        None
    }
}

/// A redirection: optional blanks, an operator, optional blanks, a word.
#[verifier::opaque]
pub open spec fn redirect_at(s: Seq<char>, i: int) -> Option<(int, RedirectView)> {
    match redirect_op_at(s, run_end(s, i, CharClass::Blank)) {
        Some((j, kind)) => match word_at(s, run_end(s, j, CharClass::Blank)) {
            Some((end, word)) => Some((end, RedirectView { kind, file: word.value })),
            None => None,
        },
        None => None,
    }
}

/// A redirection is not empty as input.
pub proof fn lemma_redirect_advances(s: Seq<char>, i: int)
    requires
        0 <= i <= s.len(),
    ensures
        redirect_at(s, i) matches Some(r) ==> 0 <= i < r.0 <= s.len(),
{
    reveal(redirect_at);
    lemma_run_end(s, i, CharClass::Blank);
    match redirect_op_at(s, run_end(s, i, CharClass::Blank)) {
        Some((j, _)) => {
            lemma_run_end(s, j, CharClass::Blank);
            lemma_word_advances(s, run_end(s, j, CharClass::Blank));
        },
        None => {},
    }
}

/// An assignment: an identifier, `=`, and the word that follows directly,
/// if any. Without a word the value is empty.
#[verifier::opaque]
pub open spec fn assignment_at(s: Seq<char>, i: int) -> Option<(int, (Seq<char>, Seq<char>))> {
    if 0 <= i < s.len() && is_ident_start(s[i]) {
        let j = run_end(s, i, CharClass::Ident);
        if j < s.len() && s[j] == '=' {
            match word_at(s, j + 1) {
                Some((end, word)) => Some((end, (s.subrange(i, j), word.value))),
                None => Some((j + 1, (s.subrange(i, j), Seq::empty()))),
            }
        } else {
            None
        }
    } else {
        None
    }
}

/// An assignment is not empty as input.
pub proof fn lemma_assignment_advances(s: Seq<char>, i: int)
    ensures
        assignment_at(s, i) matches Some(r) ==> 0 <= i < r.0 <= s.len(),
{
    reveal(assignment_at);
    if 0 <= i < s.len() && is_ident_start(s[i]) {
        lemma_run_end(s, i, CharClass::Ident);
        lemma_word_advances(s, run_end(s, i, CharClass::Ident) + 1);
    }
}

/// The assignments that follow one another from `i`, each followed by
/// optional blanks: where they end, and what they are.
#[verifier::opaque]
pub open spec fn assignments_from(s: Seq<char>, i: int) -> (int, Seq<(Seq<char>, Seq<char>)>)
    decreases s.len() - i,
{
    match assignment_at(s, i) {
        Some((j, a)) => {
            proof {
                lemma_assignment_advances(s, i);
                lemma_run_end(s, j, CharClass::Blank);
            }
            let (end, rest) = assignments_from(s, run_end(s, j, CharClass::Blank));
            (end, seq![a] + rest)
        },
        None => (i, Seq::empty()),
    }
}

/// Assignments end inside the input, not before they start.
pub proof fn lemma_assignments_bounds(s: Seq<char>, i: int)
    requires
        0 <= i <= s.len(),
    ensures
        i <= assignments_from(s, i).0 <= s.len(),
    decreases s.len() - i,
{
    reveal(assignment_at);
    reveal(assignments_from);
    lemma_assignment_advances(s, i);
    match assignment_at(s, i) {
        Some((j, _)) => {
            lemma_run_end(s, j, CharClass::Blank);
            lemma_assignments_bounds(s, run_end(s, j, CharClass::Blank));
        },
        None => {},
    }
}

/// What follows the name of a command: redirections, and words set off by
/// blanks, in any order. Gives where they end, the words, and the
/// redirections.
#[verifier::opaque]
pub open spec fn items_from(s: Seq<char>, i: int) -> (int, Seq<ArgView>, Seq<RedirectView>)
    decreases s.len() - i,
{
    if i < 0 || i > s.len() {
        (i, Seq::empty(), Seq::empty())
    } else {
        match redirect_at(s, i) {
            Some((j, r)) => {
                proof {
                    lemma_redirect_advances(s, i);
                }
                let (end, args, redirects) = items_from(s, j);
                (end, args, seq![r] + redirects)
            },
            None => {
                let b = run_end(s, i, CharClass::Blank);
                if b > i {
                    match word_at(s, b) {
                        Some((j, w)) => {
                            proof {
                                lemma_word_advances(s, b);
                            }
                            let (end, args, redirects) = items_from(s, j);
                            (end, seq![w] + args, redirects)
                        },
                        None => (i, Seq::empty(), Seq::empty()),
                    }
                } else {
                    (i, Seq::empty(), Seq::empty())
                }
            },
        }
    }
}

/// Arguments and redirections end inside the input, not before they start.
pub proof fn lemma_items_bounds(s: Seq<char>, i: int)
    requires
        0 <= i <= s.len(),
    ensures
        i <= items_from(s, i).0 <= s.len(),
    decreases s.len() - i,
{
    reveal(word_at);
    reveal(redirect_at);
    reveal(items_from);
    lemma_redirect_advances(s, i);
    match redirect_at(s, i) {
        Some((j, _)) => {
            lemma_items_bounds(s, j);
        },
        None => {
            let b = run_end(s, i, CharClass::Blank);
            lemma_run_end(s, i, CharClass::Blank);
            lemma_word_advances(s, b);
            if b > i {
                match word_at(s, b) {
                    Some((j, _)) => {
                        lemma_items_bounds(s, j);
                    },
                    None => {},
                }
            }
        },
    }
}

/// A command: optional blanks, assignments, a name, then arguments and
/// redirections, then optional blanks. The name may be missing only after
/// at least one assignment.
#[verifier::opaque]
pub open spec fn command_at(s: Seq<char>, i: int) -> Option<(int, CommandView)> {
    let (b, assignments) = assignments_from(s, run_end(s, i, CharClass::Blank));
    let (c, name) = match word_at(s, b) {
        Some((j, w)) => (j, Some(w.value)),
        None => (b, None),
    };
    if name is None && assignments.len() == 0 {
        None
    } else {
        let (d, args, redirects) = items_from(s, c);
        Some(
            (
                run_end(s, d, CharClass::Blank),
                CommandView { assignments, name, args, redirects },
            ),
        )
    }
}

/// A command is not empty as input.
pub proof fn lemma_command_advances(s: Seq<char>, i: int)
    requires
        0 <= i <= s.len(),
    ensures
        command_at(s, i) matches Some(r) ==> 0 <= i < r.0 <= s.len(),
{
    reveal(word_at);
    reveal(assignments_from);
    reveal(items_from);
    reveal(command_at);
    let a = run_end(s, i, CharClass::Blank);
    lemma_run_end(s, i, CharClass::Blank);
    lemma_assignments_bounds(s, a);
    let (b, assignments) = assignments_from(s, a);
    lemma_assignment_advances(s, a);
    match assignment_at(s, a) {
        Some((j, _)) => {
            lemma_run_end(s, j, CharClass::Blank);
            lemma_assignments_bounds(s, run_end(s, j, CharClass::Blank));
        },
        None => {},
    }
    lemma_word_advances(s, b);
    let c = match word_at(s, b) {
        Some((j, w)) => j,
        None => b,
    };
    lemma_items_bounds(s, c);
    lemma_run_end(s, items_from(s, c).0, CharClass::Blank);
}

/// Whether a `|` that joins two commands stands at `i`: a `|` that is not
/// the first half of `||`.
pub open spec fn pipe_at(s: Seq<char>, i: int) -> bool {
    0 <= i < s.len() && s[i] == '|' && !(i + 1 < s.len() && s[i + 1] == '|')
}

/// The commands after the first of a pipeline, each behind a `|`: where
/// they end and what they are. `None` where a `|` has no command after it.
#[verifier::opaque]
pub open spec fn piped_from(s: Seq<char>, i: int) -> Option<(int, Seq<CommandView>)>
    decreases s.len() - i,
{
    if pipe_at(s, i) {
        match command_at(s, i + 1) {
            Some((j, c)) => {
                proof {
                    lemma_command_advances(s, i + 1);
                }
                match piped_from(s, j) {
                    Some((end, rest)) => Some((end, seq![c] + rest)),
                    None => None,
                }
            },
            None => None,
        }
    } else {
        Some((i, Seq::empty()))
    }
}

/// Whether the `!` that negates a pipeline stands at `i`: a `!` at the end
/// of the input or before whitespace.
pub open spec fn bang_at(s: Seq<char>, i: int) -> bool {
    0 <= i < s.len() && s[i] == '!' && (i + 1 == s.len() || is_space(s[i + 1]))
}

/// A pipeline: optional blanks, an optional `!`, and commands joined by
/// `|`. It is parsed as a foreground pipeline; the list marks it as a
/// background one where `&` follows.
#[verifier::opaque]
pub open spec fn pipeline_at(s: Seq<char>, i: int) -> Option<(int, PipelineView)> {
    let a = run_end(s, i, CharClass::Blank);
    let negated = bang_at(s, a);
    match command_at(s, if negated { a + 1 } else { a }) {
        Some((j, first)) => match piped_from(s, j) {
            Some((end, rest)) => Some(
                (end, PipelineView { commands: seq![first] + rest, negated, background: false }),
            ),
            None => None,
        },
        None => None,
    }
}

/// Piped commands end inside the input, not before they start.
pub proof fn lemma_piped_bounds(s: Seq<char>, i: int)
    requires
        0 <= i <= s.len(),
    ensures
        piped_from(s, i) matches Some(r) ==> i <= r.0 <= s.len(),
    decreases s.len() - i,
{
    reveal(command_at);
    reveal(piped_from);
    if pipe_at(s, i) {
        lemma_command_advances(s, i + 1);
        match command_at(s, i + 1) {
            Some((j, _)) => {
                lemma_piped_bounds(s, j);
            },
            None => {},
        }
    }
}

/// A pipeline is not empty as input, and holds at least one command.
pub proof fn lemma_pipeline_advances(s: Seq<char>, i: int)
    requires
        0 <= i <= s.len(),
    ensures
        pipeline_at(s, i) matches Some(r) ==> i < r.0 <= s.len() && r.1.commands.len() > 0,
{
    reveal(command_at);
    reveal(pipeline_at);
    let a = run_end(s, i, CharClass::Blank);
    lemma_run_end(s, i, CharClass::Blank);
    let b = if bang_at(s, a) {
        a + 1
    } else {
        a
    };
    lemma_command_advances(s, b);
    match command_at(s, b) {
        Some((j, _)) => {
            lemma_piped_bounds(s, j);
        },
        None => {},
    }
}

/// A connector: optional blanks, then `&&`, `||`, `;` or `&`.
pub open spec fn connector_at(s: Seq<char>, i: int) -> Option<(int, Connector)> {
    let a = run_end(s, i, CharClass::Blank);
    if 0 <= a && a + 1 < s.len() && s[a] == '&' && s[a + 1] == '&' {
        Some((a + 2, Connector::And))
    } else if 0 <= a && a + 1 < s.len() && s[a] == '|' && s[a + 1] == '|' {
        Some((a + 2, Connector::Or))
    } else if 0 <= a < s.len() && s[a] == ';' {
        Some((a + 1, Connector::Semi))
    } else if 0 <= a < s.len() && s[a] == '&' {
        Some((a + 1, Connector::Amp))
    } else {
        None
    }
}

/// Whether `c` may end a list with nothing after it.
pub open spec fn ends_list(c: Connector) -> bool {
    c == Connector::Semi || c == Connector::Amp
}

/// A list: pipelines, each with the connector written after it. The last
/// has none, or a `;` or `&` that ends the list. `None` where the input is
/// no list: a pipeline is missing or malformed, or something other than a
/// connector follows one.
#[verifier::opaque]
pub open spec fn list_from(s: Seq<char>, i: int) -> Option<Seq<(PipelineView, Option<Connector>)>>
    decreases s.len() - i,
{
    if i < 0 || i > s.len() {
        None
    } else {
        match pipeline_at(s, i) {
            Some((j, p)) => {
                if run_end(s, j, CharClass::Blank) >= s.len() {
                    Some(seq![(p, None)])
                } else {
                    match connector_at(s, j) {
                        Some((k, c)) => {
                            if ends_list(c) && run_end(s, k, CharClass::Blank) >= s.len() {
                                Some(seq![(p, Some(c))])
                            } else {
                                proof {
                                    lemma_pipeline_advances(s, i);
                                    lemma_run_end(s, j, CharClass::Blank);
                                }
                                match list_from(s, k) {
                                    Some(rest) => Some(seq![(p, Some(c))] + rest),
                                    None => None,
                                }
                            }
                        },
                        None => None,
                    }
                }
            },
            None => None,
        }
    }
}

/// The entries of a list: each pipeline with the connector written before
/// it, and marked as a background pipeline where `&` is written after it.
pub open spec fn entries_of(items: Seq<(PipelineView, Option<Connector>)>) -> Seq<EntryView> {
    Seq::new(
        items.len(),
        |k: int|
            EntryView {
                connector: if k == 0 {
                    None
                } else {
                    items[k - 1].1
                },
                pipeline: PipelineView {
                    commands: items[k].0.commands,
                    negated: items[k].0.negated,
                    background: items[k].1 == Some(Connector::Amp),
                },
            },
    )
}

/// Every pipeline of a list holds at least one command, and a list holds at
/// least one pipeline.
pub proof fn lemma_list_nonempty(s: Seq<char>, i: int)
    requires
        0 <= i <= s.len(),
    ensures
        list_from(s, i) matches Some(items) ==> items.len() > 0 && forall|k: int|
            0 <= k < items.len() ==> (#[trigger] items[k]).0.commands.len() > 0,
    decreases s.len() - i,
{
    reveal(pipeline_at);
    reveal(list_from);
    lemma_pipeline_advances(s, i);
    match pipeline_at(s, i) {
        Some((j, p)) => {
            if run_end(s, j, CharClass::Blank) < s.len() {
                lemma_run_end(s, j, CharClass::Blank);
                match connector_at(s, j) {
                    Some((k, c)) => {
                        if !(ends_list(c) && run_end(s, k, CharClass::Blank) >= s.len()) {
                            lemma_list_nonempty(s, k);
                        }
                    },
                    None => {},
                }
            }
        },
        None => {},
    }
}

} // verus!
