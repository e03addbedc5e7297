//! Tilde and glob expansion of a command's arguments.
//!
//! Which paths match a pattern is for the file system to say. What the
//! shell makes of the answer is decided here: quoted arguments and
//! arguments without a wildcard are passed through, a pattern that nothing
//! matches stands for itself, and matches are put in lexicographic order.

use crate::ast::{lemma_view_seq_push, view_seq, Arg, ArgView};
use crate::path::{expand_home_with, spec_expand_home, starts_with_home};
use crate::text::{chars_of, lex_order, sort_strings};
use vstd::prelude::*;

verus! {

/// Whether a word starts with the sign of the home directory: `~` alone,
/// or `~` before a separator.
pub open spec fn has_tilde(v: Seq<char>) -> bool {
    v == seq!['~'] || starts_with_home(v)
}

/// `arg` after tilde expansion: an unquoted word that starts with the sign
/// of the home directory has it replaced by `home`. A quoted word, any other
/// word, and every word where there is no home directory stay as they are.
pub open spec fn spec_tilde(arg: ArgView, home: Option<Seq<char>>) -> ArgView {
    if home is Some && !arg.quoted && has_tilde(arg.value) {
        ArgView { value: spec_expand_home(arg.value, home), quoted: false }
    } else {
        arg
    }
}

/// `args` after tilde expansion.
pub fn expand_tilde(args: &[Arg], home: Option<&str>) -> (r: Vec<Arg>)
    ensures
        view_seq(r@) == Seq::new(
            args.len() as nat,
            |i: int|
                spec_tilde(
                    args[i]@,
                    match home {
                        Some(h) => Some(h@),
                        None => None,
                    },
                ),
        ),
{
    let ghost h = match home {
        Some(h) => Some(h@),
        None => None,
    };
    let mut out: Vec<Arg> = Vec::new();
    let mut i: usize = 0;
    while i < args.len()
        invariant
            0 <= i <= args.len(),
            h == match home {
                Some(h) => Some(h@),
                None => None,
            },
            out.len() == i,
            forall|k: int| 0 <= k < i ==> (#[trigger] out[k])@ == spec_tilde(args[k]@, h),
        decreases args.len() - i,
    {
        let arg = &args[i];
        let v = chars_of(arg.value.as_str());
        let lone = v.len() == 1 && v[0] == '~';
        let leading = v.len() >= 2 && v[0] == '~' && (v[1] == '/' || v[1] == '\\');
        proof {
            if lone {
                assert(v@ =~= seq!['~']);
            }
        }
        if home.is_some() && !arg.quoted && (lone || leading) {
            out.push(Arg { value: expand_home_with(arg.value.as_str(), home), quoted: false });
        } else {
            out.push(arg.copy());
        }
        i += 1;
    }
    assert(view_seq(out@) =~= Seq::new(args.len() as nat, |i: int| spec_tilde(args[i]@, h)));
    out
}

/// Whether `c` is a wildcard character.
pub open spec fn is_glob_char(c: char) -> bool {
    c == '*' || c == '?' || c == '['
}

/// Whether `s` holds one of the wildcard characters `*`, `?`, `[`.
pub open spec fn has_glob_chars(s: Seq<char>) -> bool {
    exists|i: int| 0 <= i < s.len() && is_glob_char(#[trigger] s[i])
}

/// Whether `s` holds one of the wildcard characters `*`, `?`, `[`.
pub fn contains_glob_chars(s: &str) -> (r: bool)
    ensures
        r == has_glob_chars(s@),
{
    let v = chars_of(s);
    let mut i: usize = 0;
    while i < v.len()
        invariant
            0 <= i <= v.len(),
            v@ == s@,
            forall|k: int| 0 <= k < i ==> !is_glob_char(#[trigger] v[k]),
        decreases v.len() - i,
    {
        let c = v[i];
        if c == '*' || c == '?' || c == '[' {
            return true;
        }
        i += 1;
    }
    false
}

/// The view of what the file system answered for a pattern.
pub open spec fn opt_views(es: Seq<Option<String>>) -> Seq<Option<Seq<char>>> {
    Seq::new(
        es.len(),
        |i: int|
            match es[i] {
                Some(p) => Some(p@),
                None => None,
            },
    )
}

/// The view of what the file system answered for a pattern, `None` for a
/// pattern that it refused.
pub open spec fn answer_view(answer: Option<Vec<Option<String>>>) -> Option<
    Seq<Option<Seq<char>>>,
> {
    match answer {
        Some(es) => Some(opt_views(es@)),
        None => None,
    }
}

/// The paths among `es`, in order, without the entries that could not be read.
pub open spec fn readable(es: Seq<Option<Seq<char>>>) -> Seq<Seq<char>>
    decreases es.len(),
{
    if es.len() == 0 {
        Seq::empty()
    } else {
        match es.last() {
            Some(p) => readable(es.drop_last()).push(p),
            None => readable(es.drop_last()),
        }
    }
}

/// Whether the shell asks the file system about `arg`.
pub open spec fn needs_glob(arg: ArgView) -> bool {
    !arg.quoted && has_glob_chars(arg.value)
}

/// What `arg` expands to, given the file system's answer for it as a
/// pattern: `None` where the pattern is malformed, else the matching
/// entries, `None` standing for one that could not be read.
pub open spec fn spec_expand_arg(arg: ArgView, answer: Option<Seq<Option<Seq<char>>>>) -> Seq<
    Seq<char>,
> {
    if !needs_glob(arg) {
        seq![arg.value]
    } else {
        match answer {
            Some(es) => if readable(es).len() == 0 {
                seq![arg.value]
            } else {
                readable(es).sort_by(lex_order())
            },
            None => seq![arg.value],
        }
    }
}

/// What `args` expand to, one after the other, given one answer for each.
pub open spec fn spec_expand_all(
    args: Seq<ArgView>,
    answers: Seq<Option<Seq<Option<Seq<char>>>>>,
) -> Seq<Seq<char>>
    decreases args.len(),
{
    if args.len() == 0 || answers.len() == 0 {
        Seq::empty()
    } else {
        spec_expand_all(args.drop_last(), answers.drop_last()) + spec_expand_arg(
            args.last(),
            answers.last(),
        )
    }
}

/// A quoted argument expands to exactly itself, whatever the file system holds.
pub proof fn lemma_quoted_is_kept(arg: ArgView, answer: Option<Seq<Option<Seq<char>>>>)
    requires
        arg.quoted,
    ensures
        spec_expand_arg(arg, answer) == seq![arg.value],
{
}

/// A pattern that matches nothing expands to itself.
pub proof fn lemma_no_match_is_kept(arg: ArgView, answer: Option<Seq<Option<Seq<char>>>>)
    requires
        answer matches Some(es) ==> readable(es).len() == 0,
    ensures
        spec_expand_arg(arg, answer) == seq![arg.value],
{
}

/// What `arg` expands to, given the file system's answer for it.
pub fn expand_arg(arg: &Arg, answer: Option<Vec<Option<String>>>) -> (r: Vec<String>)
    ensures
        view_seq(r@) == spec_expand_arg(arg@, answer_view(answer)),
{
    let mut only: Vec<String> = Vec::new();
    proof {
        lemma_view_seq_push(only@, arg.value);
        assert(view_seq(Seq::<String>::empty()).push(arg.value@) =~= seq![arg.value@]);
    }
    only.push(arg.value.clone());
    if arg.quoted || !contains_glob_chars(arg.value.as_str()) {
        return only;
    }
    match answer {
        None => only,
        Some(entries) => {
            let ghost es = opt_views(entries@);
            let mut matches: Vec<String> = Vec::new();
            let mut i: usize = 0;
            assert(view_seq(matches@) =~= readable(es.take(0)));
            while i < entries.len()
                invariant
                    0 <= i <= entries.len(),
                    es == opt_views(entries@),
                    view_seq(matches@) == readable(es.take(i as int)),
                decreases entries.len() - i,
            {
                proof {
                    assert(es.take(i + 1).drop_last() =~= es.take(i as int));
                    assert(es.take(i + 1).last() == es[i as int]);
                }
                match &entries[i] {
                    Some(p) => {
                        proof {
                            lemma_view_seq_push(matches@, *p);
                        }
                        matches.push(p.clone());
                    },
                    None => {},
                }
                i += 1;
            }
            assert(es.take(i as int) =~= es);
            if matches.len() == 0 {
                only
            } else {
                sort_strings(matches)
            }
        },
    }
}

/// What `args` expand to, given one answer of the file system for each.
/// The answers for arguments that need none are not looked at.
pub fn expand_globs_with(args: &[Arg], answers: Vec<Option<Vec<Option<String>>>>) -> (r: Vec<
    String,
>)
    requires
        answers.len() == args.len(),
    ensures
        view_seq(r@) == spec_expand_all(
            view_seq(args@),
            Seq::new(answers.len() as nat, |i: int| answer_view(answers[i])),
        ),
{
    let ghost all = Seq::new(answers.len() as nat, |i: int| answer_view(answers[i]));
    let ghost avs = view_seq(args@);
    let mut answers = answers;
    let mut out: Vec<String> = Vec::new();
    let mut i: usize = 0;
    assert(view_seq(out@) =~= spec_expand_all(avs.take(0), all.take(0)));
    while i < args.len()
        invariant
            0 <= i <= args.len(),
            avs == view_seq(args@),
            all.len() == args.len(),
            answers.len() == args.len() - i,
            forall|k: int| 0 <= k < answers.len() ==> answer_view(#[trigger] answers[k]) == all[i + k],
            view_seq(out@) == spec_expand_all(avs.take(i as int), all.take(i as int)),
        decreases args.len() - i,
    {
        let answer = answers.remove(0);
        let mut piece = expand_arg(&args[i], answer);
        proof {
            assert(avs.take(i + 1).drop_last() =~= avs.take(i as int));
            assert(all.take(i + 1).drop_last() =~= all.take(i as int));
            assert(avs.take(i + 1).last() == args[i as int]@);
            assert(all.take(i + 1).last() == all[i as int]);
            assert(view_seq(out@ + piece@) =~= view_seq(out@) + view_seq(piece@));
        }
        out.append(&mut piece);
        i += 1;
    }
    assert(avs.take(i as int) =~= avs);
    assert(all.take(i as int) =~= all);
    out
}

/// Asks the file system which paths match `pattern`, through `glob::glob`.
///
/// `None` stands for a pattern that `glob` rejects. Otherwise the entries
/// come in the order in which `glob` yields them, `None` standing for an
/// entry that it could not read. Nothing is claimed of the answer: it is
/// the file system's.
#[verifier::external_body]
fn glob_paths(pattern: &str) -> (answer: Option<Vec<Option<String>>>) {
    match glob::glob(pattern) {
        Ok(paths) => {
            let mut entries = Vec::new();
            for entry in paths {
                entries.push(match entry {
                    Ok(path) => Some(path.to_string_lossy().into_owned()),
                    Err(_) => None,
                });
            }
            Some(entries)
        },
        Err(_) => None,
    }
}

/// What `args` expand to in the file system as it is.
///
/// The result is what `spec_expand_all` gives for some answers of the file
/// system, one for each argument; an argument that is quoted or holds no
/// wildcard gives exactly its value, whatever the answers.
pub fn expand_globs(args: &[Arg]) -> (r: Vec<String>)
    ensures
        exists|answers: Seq<Option<Seq<Option<Seq<char>>>>>|
            answers.len() == args.len() && view_seq(r@) == #[trigger] spec_expand_all(
                view_seq(args@),
                answers,
            ),
{
    let ghost avs = view_seq(args@);
    let ghost mut asked: Seq<Option<Seq<Option<Seq<char>>>>> = Seq::empty();
    let mut out: Vec<String> = Vec::new();
    let mut i: usize = 0;
    assert(view_seq(out@) =~= spec_expand_all(avs.take(0), asked));
    while i < args.len()
        invariant
            0 <= i <= args.len(),
            avs == view_seq(args@),
            asked.len() == i,
            view_seq(out@) == spec_expand_all(avs.take(i as int), asked),
        decreases args.len() - i,
    {
        let arg = &args[i];
        let answer = if arg.quoted || !contains_glob_chars(arg.value.as_str()) {
            None
        } else {
            glob_paths(arg.value.as_str())
        };
        let ghost a = answer_view(answer);
        let mut piece = expand_arg(arg, answer);
        proof {
            assert(avs.take(i + 1).drop_last() =~= avs.take(i as int));
            assert(asked.push(a).drop_last() =~= asked);
            assert(avs.take(i + 1).last() == args[i as int]@);
            assert(view_seq(out@ + piece@) =~= view_seq(out@) + view_seq(piece@));
            asked = asked.push(a);
        }
        out.append(&mut piece);
        i += 1;
    }
    assert(avs.take(i as int) =~= avs);
    out
}

} // verus!
