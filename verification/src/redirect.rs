//! Which of a command's redirections take effect.

use crate::ast::{view_seq, Redirect, RedirectKind, RedirectView};
use vstd::prelude::*;

verus! {

/// Whether `r` redirects standard input.
pub open spec fn is_input(r: RedirectView) -> bool {
    r.kind == RedirectKind::StdinFrom
}

/// Whether `r` redirects standard output.
pub open spec fn is_output(r: RedirectView) -> bool {
    r.kind == RedirectKind::StdoutOverwrite || r.kind == RedirectKind::StdoutAppend
}

/// The index of the last redirection of standard input (`input` true) or
/// of standard output (`input` false), `None` where there is none.
pub open spec fn last_redirect(rs: Seq<RedirectView>, input: bool) -> Option<int>
    decreases rs.len(),
{
    if rs.len() == 0 {
        None
    } else if (input && is_input(rs.last())) || (!input && is_output(rs.last())) {
        Some(rs.len() - 1)
    } else {
        last_redirect(rs.drop_last(), input)
    }
}

/// `last_redirect` names a redirection of the kind asked for, after which
/// no other of that kind is written; it is `None` only where none is written.
pub proof fn lemma_last_redirect(rs: Seq<RedirectView>, input: bool)
    ensures
        match last_redirect(rs, input) {
            Some(i) => {
                &&& 0 <= i < rs.len()
                &&& if input {
                    is_input(rs[i])
                } else {
                    is_output(rs[i])
                }
                &&& forall|j: int|
                    i < j < rs.len() ==> !(if input {
                        is_input(#[trigger] rs[j])
                    } else {
                        is_output(rs[j])
                    })
            },
            None => forall|j: int|
                0 <= j < rs.len() ==> !(if input {
                    is_input(#[trigger] rs[j])
                } else {
                    is_output(rs[j])
                }),
        },
    decreases rs.len(),
{
    if rs.len() > 0 {
        if !((input && is_input(rs.last())) || (!input && is_output(rs.last()))) {
            lemma_last_redirect(rs.drop_last(), input);
            assert forall|j: int| 0 <= j < rs.len() - 1 implies rs.drop_last()[j] == rs[j] by {}
        }
    }
}

/// The redirections that take effect: the last `<`, and the last of `>`
/// and `>>`.
pub fn resolve_redirects(redirects: &[Redirect]) -> (r: (Option<&Redirect>, Option<&Redirect>))
    ensures
        match r.0 {
            Some(x) => {
                &&& last_redirect(view_seq(redirects@), true) matches Some(i)
                &&& *x == redirects[i]
            },
            None => last_redirect(view_seq(redirects@), true) is None,
        },
        match r.1 {
            Some(x) => {
                &&& last_redirect(view_seq(redirects@), false) matches Some(i)
                &&& *x == redirects[i]
            },
            None => last_redirect(view_seq(redirects@), false) is None,
        },
{
    let ghost rs = view_seq(redirects@);
    let mut input: Option<usize> = None;
    let mut output: Option<usize> = None;
    let mut i: usize = 0;
    assert(rs.take(0) =~= Seq::<RedirectView>::empty());
    while i < redirects.len()
        invariant
            0 <= i <= redirects.len(),
            rs == view_seq(redirects@),
            match input {
                Some(k) => k < i && last_redirect(rs.take(i as int), true) == Some(k as int),
                None => last_redirect(rs.take(i as int), true) is None,
            },
            match output {
                Some(k) => k < i && last_redirect(rs.take(i as int), false) == Some(k as int),
                None => last_redirect(rs.take(i as int), false) is None,
            },
        decreases redirects.len() - i,
    {
        proof {
            assert(rs.take(i + 1).drop_last() =~= rs.take(i as int));
            assert(rs.take(i + 1).last() == redirects[i as int]@);
        }
        match redirects[i].kind {
            RedirectKind::StdinFrom => {
                input = Some(i);
            },
            _ => {
                output = Some(i);
            },
        }
        i += 1;
    }
    assert(rs.take(i as int) =~= rs);
    let first = match input {
        Some(k) => Some(&redirects[k]),
        None => None,
    };
    let second = match output {
        Some(k) => Some(&redirects[k]),
        None => None,
    };
    (first, second)
}

} // verus!
