//! The commands that the shell runs itself, as far as they change or read
//! its state. Each gives back an exit status and the lines that it has to
//! say; writing them out is for the caller to do.

pub mod aliases;
pub mod boolean;
pub mod dirs;
pub mod environment;
pub mod info;
pub mod job_cmds;
pub mod read;
pub mod settings;
pub mod source;
pub mod test_cmd;

use crate::ast::view_seq;
use crate::text::push_str;
use crate::text::string_of;
use vstd::prelude::*;

verus! {

/// A line that a command has to say.
#[derive(Debug, Clone, PartialEq, Eq)]
pub enum Line {
    /// For standard output.
    Out(String),
    /// For standard error.
    Diag(String),
}

/// What a `Line` holds.
pub enum LineView {
    Out(Seq<char>),
    Diag(Seq<char>),
}

impl View for Line {
    type V = LineView;

    open spec fn view(&self) -> LineView {
        match self {
            Line::Out(s) => LineView::Out(s@),
            Line::Diag(s) => LineView::Diag(s@),
        }
    }
}

/// The pieces of `parts`, one after the other.
pub open spec fn concat(parts: Seq<Seq<char>>) -> Seq<char>
    decreases parts.len(),
{
    if parts.len() == 0 {
        Seq::empty()
    } else {
        concat(parts.drop_last()) + parts.last()
    }
}

/// The string made of the pieces of `parts`, one after the other.
pub fn text(parts: &[&str]) -> (r: String)
    ensures
        r@ == concat(view_seq(parts@)),
{
    let ghost ps = view_seq(parts@);
    let mut out: Vec<char> = Vec::new();
    let mut i: usize = 0;
    assert(out@ =~= concat(ps.take(0)));
    while i < parts.len()
        invariant
            0 <= i <= parts.len(),
            ps == view_seq(parts@),
            out@ == concat(ps.take(i as int)),
        decreases parts.len() - i,
    {
        proof {
            assert(ps.take(i + 1).drop_last() =~= ps.take(i as int));
            assert(ps.take(i + 1).last() == parts[i as int]@);
        }
        push_str(&mut out, parts[i]);
        i += 1;
    }
    assert(ps.take(i as int) =~= ps);
    string_of(&out)
}

/// Whether one of `lines` is for standard error.
pub open spec fn any_error(lines: Seq<LineView>) -> bool {
    exists|i: int| 0 <= i < lines.len() && (#[trigger] lines[i]) is Diag
}

/// The exit status of a command that has said `lines`: 1 where one of
/// them is a complaint, else 0.
pub open spec fn status_of(lines: Seq<LineView>) -> i32 {
    if any_error(lines) {
        1
    } else {
        0
    }
}

} // verus!
