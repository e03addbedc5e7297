//! `true`, `false`, `exit` and `echo`.

use crate::ast::view_seq;
use crate::text::{join_with, push_joined, string_of};
use vstd::prelude::*;

verus! {

/// The builtin `true`: succeeds.
pub fn run_true() -> (r: i32)
    ensures
        r == 0,
{
    0
}

/// The builtin `false`: fails.
pub fn run_false() -> (r: i32)
    ensures
        r == 1,
{
    1
}

/// The exit status with which the shell ends at `exit`: the number that
/// its first argument spells, else the status of the last command.
pub open spec fn spec_exit_code(args: Seq<Seq<char>>, last_code: i32) -> i32 {
    if args.len() > 0 {
        match crate::text::number_of(args[0]) {
            Some(n) => if n <= i32::MAX {
                n as i32
            } else {
                last_code
            },
            None => last_code,
        }
    } else {
        last_code
    }
}

/// The exit status with which the shell ends at `exit`.
pub fn exit_code(args: &[String], last_code: i32) -> (r: i32)
    ensures
        r == spec_exit_code(view_seq(args@), last_code),
{
    if args.len() > 0 {
        assert(view_seq(args@)[0] == args[0]@);
        let v = crate::text::chars_of(args[0].as_str());
        assert(v@.subrange(0, v.len() as int) =~= v@);
        match crate::text::parse_number(&v, 0, v.len()) {
            Some(n) => if n <= 0x7fff_ffff {
                n as i32
            } else {
                last_code
            },
            None => last_code,
        }
    } else {
        last_code
    }
}

/// The builtin `exit` changes nothing by itself: that the shell ends is
/// said by the plan of the pipeline that holds it.
pub fn exit() {
}

/// The line that `echo` writes: its arguments with a space between each two.
pub fn echo(args: &Vec<String>) -> (r: String)
    ensures
        r@ == join_with(view_seq(args@), seq![' ']),
{
    proof {
        reveal_strlit(" ");
        assert(" "@ =~= seq![' ']);
    }
    let mut out: Vec<char> = Vec::new();
    push_joined(&mut out, args, " ");
    assert(out@ =~= join_with(view_seq(args@), seq![' ']));
    string_of(&out)
}

} // verus!
