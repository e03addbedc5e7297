//! `cd`, `pushd`, `popd` and `dirs`: where the shell goes, and what it
//! remembers of where it has been.
//!
//! Changing the directory of the process is for the caller to do. It asks
//! for the target, changes to it, and on success tells the state which
//! directory was left.

use crate::ast::{lemma_view_seq_push, view_seq};

use crate::path::{expand_home_with, spec_expand_home};
use crate::state::ShellState;
use crate::text::{push_str, string_of};
use vstd::prelude::*;

verus! {

/// Why there is no directory to go to.
#[derive(Debug, Clone, Copy, PartialEq, Eq)]
pub enum DirError {
    /// `cd` without argument while `HOME` is not set.
    NoHome,
    /// `cd -` before any change of directory.
    NoPrevious,
    /// `pushd` without argument while the stack is empty.
    NoOtherDir,
    /// `popd` while the stack is empty.
    StackEmpty,
}

/// What `cd`, `pushd` or `popd` says when it has no directory to go to.
pub open spec fn spec_dir_message(e: DirError) -> Seq<char> {
    match e {
        DirError::NoHome => "cd: HOME not set"@,
        DirError::NoPrevious => "cd: OLDPWD not set"@,
        DirError::NoOtherDir => "pushd: no other directory"@,
        DirError::StackEmpty => "popd: directory stack empty"@,
    }
}

/// What `cd`, `pushd` or `popd` says when it has no directory to go to.
pub fn dir_message(e: DirError) -> (r: &'static str)
    ensures
        r@ == spec_dir_message(e),
{
    match e {
        DirError::NoHome => "cd: HOME not set",
        DirError::NoPrevious => "cd: OLDPWD not set",
        DirError::NoOtherDir => "pushd: no other directory",
        DirError::StackEmpty => "popd: directory stack empty",
    }
}

/// Where `cd` goes: without argument to the value of `HOME`, with `-` to
/// the directory that was current before, else to its first argument,
/// home-expanded.
pub open spec fn spec_cd_target(
    args: Seq<Seq<char>>,
    vars: Map<Seq<char>, Seq<char>>,
    previous: Option<Seq<char>>,
    home: Option<Seq<char>>,
) -> Result<Seq<char>, DirError> {
    if args.len() == 0 {
        if vars.contains_key("HOME"@) {
            Ok(vars["HOME"@])
        } else {
            Err(DirError::NoHome)
        }
    } else if args[0] == "-"@ {
        match previous {
            Some(p) => Ok(p),
            None => Err(DirError::NoPrevious),
        }
    } else {
        Ok(spec_expand_home(args[0], home))
    }
}

/// Where `pushd` goes: without argument to the directory on top of the
/// stack, else to its first argument, home-expanded.
pub open spec fn spec_pushd_target(
    args: Seq<Seq<char>>,
    stack: Seq<Seq<char>>,
    home: Option<Seq<char>>,
) -> Result<Seq<char>, DirError> {
    if args.len() == 0 {
        if stack.len() == 0 {
            Err(DirError::NoOtherDir)
        } else {
            Ok(stack.last())
        }
    } else {
        Ok(spec_expand_home(args[0], home))
    }
}

/// The stack after `pushd` has left the directory `cwd`: `cwd` is put on
/// top, in place of the top where `pushd` had no argument and went there.
pub open spec fn stack_after_pushd(stack: Seq<Seq<char>>, rotated: bool, cwd: Seq<char>) -> Seq<
    Seq<char>,
> {
    if rotated && stack.len() > 0 {
        stack.drop_last().push(cwd)
    } else {
        stack.push(cwd)
    }
}

/// Where `popd` goes: to the directory on top of the stack.
pub open spec fn spec_popd_target(stack: Seq<Seq<char>>) -> Result<Seq<char>, DirError> {
    if stack.len() == 0 {
        Err(DirError::StackEmpty)
    } else {
        Ok(stack.last())
    }
}

/// The stack after `popd` has gone to its top.
pub open spec fn stack_after_popd(stack: Seq<Seq<char>>) -> Seq<Seq<char>> {
    if stack.len() == 0 {
        stack
    } else {
        stack.drop_last()
    }
}

/// `pushd DIR` and then `popd` lead back to the directory that `pushd`
/// left, and leave the stack as it was.
pub proof fn lemma_pushd_then_popd(
    stack: Seq<Seq<char>>,
    cwd: Seq<char>,
    dir: Seq<char>,
    home: Option<Seq<char>>,
)
    ensures
        ({
            let pushed = stack_after_pushd(stack, false, cwd);
            &&& spec_pushd_target(seq![dir], stack, home) == Ok::<Seq<char>, DirError>(
                spec_expand_home(dir, home),
            )
            &&& pushed.len() == stack.len() + 1
            &&& spec_popd_target(pushed) == Ok::<Seq<char>, DirError>(cwd)
            &&& stack_after_popd(pushed) == stack
            &&& stack_after_popd(pushed).len() == stack.len()
        }),
{
    let pushed = stack_after_pushd(stack, false, cwd);
    assert(pushed.drop_last() =~= stack);
}

/// The view of the string that `o` holds, if it holds one.
pub open spec fn opt_str_view(o: Option<&str>) -> Option<Seq<char>> {
    match o {
        Some(s) => Some(s@),
        None => None,
    }
}

/// Where `cd` with the arguments `args` goes.
pub fn cd_target(args: &[String], state: &ShellState, home: Option<&str>) -> (r: Result<
    String,
    DirError,
>)
    requires
        state.wf(),
    ensures
        match r {
            Ok(t) => spec_cd_target(
                view_seq(args@),
                state.variables@,
                crate::ast::opt_view(state.previous_dir),
                opt_str_view(home),
            ) == Ok::<Seq<char>, DirError>(t@),
            Err(e) => spec_cd_target(
                view_seq(args@),
                state.variables@,
                crate::ast::opt_view(state.previous_dir),
                opt_str_view(home),
            ) == Err::<Seq<char>, DirError>(e),
        },
{
    if args.len() == 0 {
        match state.variables.get("HOME") {
            Some(h) => Ok(h.clone()),
            None => Err(DirError::NoHome),
        }
    } else {
        assert(view_seq(args@)[0] == args[0]@);
        if args[0].as_str().eq("-") {
            match &state.previous_dir {
                Some(p) => Ok(p.clone()),
                None => Err(DirError::NoPrevious),
            }
        } else {
            Ok(expand_home_with(args[0].as_str(), home))
        }
    }
}

/// Takes note that the shell has left the directory `old_cwd`.
pub fn entered(state: &mut ShellState, old_cwd: &str)
    ensures
        crate::ast::opt_view(final(state).previous_dir) == Some(old_cwd@),
        final(state).dir_stack == old(state).dir_stack,
        final(state).aliases == old(state).aliases,
        final(state).variables == old(state).variables,
        final(state).env == old(state).env,
        final(state).set_options == old(state).set_options,
        final(state).history == old(state).history,
        final(state).jobs == old(state).jobs,
        final(state).source_depth == old(state).source_depth,
{
    state.previous_dir = Some(old_cwd.to_owned());
}

/// Where `pushd` with the arguments `args` goes.
pub fn pushd_target(args: &[String], state: &ShellState, home: Option<&str>) -> (r: Result<
    String,
    DirError,
>)
    ensures
        match r {
            Ok(t) => spec_pushd_target(
                view_seq(args@),
                view_seq(state.dir_stack@),
                opt_str_view(home),
            ) == Ok::<Seq<char>, DirError>(t@),
            Err(e) => spec_pushd_target(
                view_seq(args@),
                view_seq(state.dir_stack@),
                opt_str_view(home),
            ) == Err::<Seq<char>, DirError>(e),
        },
{
    if args.len() == 0 {
        let n = state.dir_stack.len();
        if n == 0 {
            Err(DirError::NoOtherDir)
        } else {
            assert(view_seq(state.dir_stack@).last() == state.dir_stack[n - 1]@);
            Ok(state.dir_stack[n - 1].clone())
        }
    } else {
        assert(view_seq(args@)[0] == args[0]@);
        Ok(expand_home_with(args[0].as_str(), home))
    }
}

/// Takes note that `pushd` has left the directory `old_cwd`; `rotated`
/// says that it had no argument and went to the top of the stack.
pub fn pushd_done(state: &mut ShellState, rotated: bool, old_cwd: &str)
    ensures
        view_seq(final(state).dir_stack@) == stack_after_pushd(
            view_seq(old(state).dir_stack@),
            rotated,
            old_cwd@,
        ),
        crate::ast::opt_view(final(state).previous_dir) == Some(old_cwd@),
        final(state).aliases == old(state).aliases,
        final(state).variables == old(state).variables,
        final(state).env == old(state).env,
        final(state).set_options == old(state).set_options,
        final(state).history == old(state).history,
        final(state).jobs == old(state).jobs,
        final(state).source_depth == old(state).source_depth,
{
    let ghost before = view_seq(state.dir_stack@);
    if rotated && state.dir_stack.len() > 0 {
        state.dir_stack.pop();
        assert(view_seq(state.dir_stack@) =~= before.drop_last());
    }
    let dir = old_cwd.to_owned();
    proof {
        lemma_view_seq_push(state.dir_stack@, dir);
    }
    state.dir_stack.push(dir);
    state.previous_dir = Some(old_cwd.to_owned());
}

/// Where `popd` goes.
pub fn popd_target(state: &ShellState) -> (r: Result<String, DirError>)
    ensures
        match r {
            Ok(t) => spec_popd_target(view_seq(state.dir_stack@)) == Ok::<Seq<char>, DirError>(
                t@,
            ),
            Err(e) => spec_popd_target(view_seq(state.dir_stack@)) == Err::<Seq<char>, DirError>(
                e,
            ),
        },
{
    let n = state.dir_stack.len();
    if n == 0 {
        Err(DirError::StackEmpty)
    } else {
        assert(view_seq(state.dir_stack@).last() == state.dir_stack[n - 1]@);
        Ok(state.dir_stack[n - 1].clone())
    }
}

/// Takes note that `popd` has left the directory `old_cwd` for the top of
/// the stack.
pub fn popd_done(state: &mut ShellState, old_cwd: &str)
    ensures
        view_seq(final(state).dir_stack@) == stack_after_popd(view_seq(old(state).dir_stack@)),
        crate::ast::opt_view(final(state).previous_dir) == Some(old_cwd@),
        final(state).aliases == old(state).aliases,
        final(state).variables == old(state).variables,
        final(state).env == old(state).env,
        final(state).set_options == old(state).set_options,
        final(state).history == old(state).history,
        final(state).jobs == old(state).jobs,
        final(state).source_depth == old(state).source_depth,
{
    let ghost before = view_seq(state.dir_stack@);
    if state.dir_stack.len() > 0 {
        state.dir_stack.pop();
        assert(view_seq(state.dir_stack@) =~= before.drop_last());
    }
    state.previous_dir = Some(old_cwd.to_owned());
}

/// The directories that the shell remembers, on one line: the current one,
/// then the stack from its top down, with a space before each.
pub open spec fn spec_dirs_line(cwd: Seq<char>, stack: Seq<Seq<char>>) -> Seq<char>
    decreases stack.len(),
{
    if stack.len() == 0 {
        cwd
    } else {
        cwd + seq![' '] + spec_dirs_line(stack.last(), stack.drop_last())
    }
}

/// The line that `dirs` shows.
pub fn dirs_line(cwd: &str, stack: &Vec<String>) -> (r: String)
    ensures
        r@ == spec_dirs_line(cwd@, view_seq(stack@)),
{
    let ghost st = view_seq(stack@);
    let mut out: Vec<char> = Vec::new();
    push_str(&mut out, cwd);
    let mut k: usize = stack.len();
    assert(st.take(k as int) =~= st);
    assert(out@ =~= Seq::<char>::empty() + cwd@);
    let ghost mut head: Seq<char> = Seq::empty();
    let ghost mut top: Seq<char> = cwd@;
    // `out` is `head` and then `top`, and what is still to come is the
    // line of `top` over the rest of the stack, without `top` itself.
    while k > 0
        invariant
            0 <= k <= stack.len(),
            st == view_seq(stack@),
            out@ == head + top,
            spec_dirs_line(cwd@, st) == head + spec_dirs_line(top, st.take(k as int)),
        decreases k,
    {
        proof {
            let s = st.take(k as int);
            assert(s.last() == stack[k - 1]@);
            assert(s.drop_last() =~= st.take(k - 1));
            let next = s.last();
            assert(spec_dirs_line(top, s) == top + seq![' '] + spec_dirs_line(
                next,
                st.take(k - 1),
            ));
            assert(head + (top + seq![' '] + spec_dirs_line(next, st.take(k - 1))) =~= (head + top
                + seq![' ']) + spec_dirs_line(next, st.take(k - 1)));
        }
        out.push(' ');
        push_str(&mut out, stack[k - 1].as_str());
        proof {
            let next = stack[k - 1]@;
            assert(out@ =~= (head + top + seq![' ']) + next);
            head = head + top + seq![' '];
            top = next;
        }
        k -= 1;
    }
    proof {
        assert(st.take(0) =~= Seq::<Seq<char>>::empty());
    }
    string_of(&out)
}

} // verus!
