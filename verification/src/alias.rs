//! Alias expansion of a command's name.

use crate::ast::{lemma_view_seq_push, view_seq, Arg, ArgView, CommandView, ParsedCommand};
use crate::strmap::StrMap;
use crate::text::{chars_of, string_of};
use vstd::prelude::*;

verus! {

/// What a token in progress contributes once it ends: itself, or nothing
/// where it is empty.
pub open spec fn flushed(cur: Seq<char>) -> Seq<Seq<char>> {
    if cur.len() > 0 {
        seq![cur]
    } else {
        Seq::empty()
    }
}

/// The words of `s` from index `i` on, given the token in progress and
/// whether a single quote is open.
///
/// A `'` opens or closes a quote and belongs to no word. A space or tab
/// outside quotes ends the word in progress. Every other character is added
/// to it. Empty words are dropped.
pub open spec fn split_from(s: Seq<char>, i: int, in_single: bool, cur: Seq<char>) -> Seq<
    Seq<char>,
>
    decreases s.len() - i,
{
    if i < 0 || i >= s.len() {
        flushed(cur)
    } else if s[i] == '\'' {
        split_from(s, i + 1, !in_single, cur)
    } else if (s[i] == ' ' || s[i] == '\t') && !in_single {
        flushed(cur) + split_from(s, i + 1, false, Seq::empty())
    } else {
        split_from(s, i + 1, in_single, cur.push(s[i]))
    }
}

/// The words of an alias's value.
pub open spec fn spec_shell_split(s: Seq<char>) -> Seq<Seq<char>> {
    split_from(s, 0, false, Seq::empty())
}

/// Splits the value of an alias into words, honouring single quotes only.
pub fn shell_split(s: &str) -> (r: Vec<String>)
    ensures
        view_seq(r@) == spec_shell_split(s@),
{
    let v = chars_of(s);
    let mut tokens: Vec<String> = Vec::new();
    let mut current: Vec<char> = Vec::new();
    let mut in_single = false;
    let mut i: usize = 0;
    assert(view_seq(tokens@) + split_from(v@, 0, false, current@) =~= split_from(
        v@,
        0,
        false,
        current@,
    ));
    while i < v.len()
        invariant
            0 <= i <= v.len(),
            v@ == s@,
            spec_shell_split(s@) == view_seq(tokens@) + split_from(
                v@,
                i as int,
                in_single,
                current@,
            ),
        decreases v.len() - i,
    {
        let ch = v[i];
        if ch == '\'' {
            in_single = !in_single;
        } else if (ch == ' ' || ch == '\t') && !in_single {
            let ghost rest = split_from(v@, i + 1, false, Seq::empty());
            if current.len() > 0 {
                let tok = string_of(&current);
                proof {
                    lemma_view_seq_push(tokens@, tok);
                    assert(view_seq(tokens@).push(tok@) + rest =~= view_seq(tokens@) + (seq![
                        current@,
                    ] + rest));
                }
                tokens.push(tok);
                current = Vec::new();
            } else {
                assert(view_seq(tokens@) + rest =~= view_seq(tokens@) + (Seq::<
                    Seq<char>,
                >::empty() + rest));
                assert(current@ =~= Seq::<char>::empty());
            }
        } else {
            current.push(ch);
        }
        i += 1;
    }
    if current.len() > 0 {
        let tok = string_of(&current);
        proof {
            lemma_view_seq_push(tokens@, tok);
            assert(view_seq(tokens@).push(tok@) =~= view_seq(tokens@) + seq![current@]);
        }
        tokens.push(tok);
    } else {
        assert(view_seq(tokens@) + Seq::<Seq<char>>::empty() =~= view_seq(tokens@));
    }
    tokens
}

/// An unquoted argument for each of `words`.
pub open spec fn plain_args(words: Seq<Seq<char>>) -> Seq<ArgView> {
    Seq::new(words.len(), |i: int| ArgView { value: words[i], quoted: false })
}

/// Whether `cmd` has a name that `aliases` binds to a value with at least
/// one word.
pub open spec fn alias_applies(cmd: CommandView, aliases: Map<Seq<char>, Seq<char>>) -> bool {
    match cmd.name {
        Some(n) => aliases.contains_key(n) && spec_shell_split(aliases[n]).len() > 0,
        None => false,
    }
}

/// `cmd` after one round of alias expansion: where its name is an alias,
/// the first word of the alias's value becomes the name and the other words
/// go before the arguments. Nothing else changes, and the new name is not
/// looked up again.
pub open spec fn spec_expand_alias(
    cmd: CommandView,
    aliases: Map<Seq<char>, Seq<char>>,
) -> CommandView {
    if alias_applies(cmd, aliases) {
        let words = spec_shell_split(aliases[cmd.name->0]);
        CommandView {
            assignments: cmd.assignments,
            name: Some(words[0]),
            args: plain_args(words.skip(1)) + cmd.args,
            redirects: cmd.redirects,
        }
    } else {
        cmd
    }
}

/// Expands the name of `cmd` once, and says whether anything changed hands.
pub fn expand_alias(cmd: &mut ParsedCommand, aliases: &StrMap) -> (r: bool)
    requires
        aliases.wf(),
    ensures
        r == alias_applies(old(cmd)@, aliases@),
        final(cmd)@ == spec_expand_alias(old(cmd)@, aliases@),
{
    let value = match &cmd.name {
        Some(n) => match aliases.get(n.as_str()) {
            Some(v) => v,
            None => {
                return false;
            },
        },
        None => {
            return false;
        },
    };
    let mut tokens = shell_split(value.as_str());
    if tokens.len() == 0 {
        return false;
    }
    let ghost words = view_seq(tokens@);
    let ghost old_args = view_seq(cmd.args@);
    let first = tokens.remove(0);
    assert(view_seq(tokens@) =~= words.skip(1));
    let mut new_args: Vec<Arg> = Vec::new();
    let mut i: usize = 0;
    while i < tokens.len()
        invariant
            0 <= i <= tokens.len(),
            new_args.len() == i,
            view_seq(tokens@) == words.skip(1),
            forall|k: int|
                0 <= k < i ==> (#[trigger] new_args[k])@ == (ArgView {
                    value: tokens[k]@,
                    quoted: false,
                }),
        decreases tokens.len() - i,
    {
        new_args.push(Arg { value: tokens[i].clone(), quoted: false });
        i += 1;
    }
    let ghost prefix = view_seq(new_args@);
    assert(prefix =~= plain_args(words.skip(1))) by {
        assert forall|k: int| 0 <= k < prefix.len() implies prefix[k] == plain_args(
            words.skip(1),
        )[k] by {
            assert(view_seq(tokens@)[k] == tokens[k]@);
        }
    }
    let mut j: usize = 0;
    while j < cmd.args.len()
        invariant
            0 <= j <= cmd.args.len(),
            cmd.args == old(cmd).args,
            old_args == view_seq(cmd.args@),
            cmd.assignments == old(cmd).assignments,
            cmd.redirects == old(cmd).redirects,
            cmd.name == old(cmd).name,
            view_seq(new_args@) == prefix + old_args.take(j as int),
        decreases cmd.args.len() - j,
    {
        let a = cmd.args[j].copy();
        proof {
            lemma_view_seq_push(new_args@, a);
            assert(old_args[j as int] == cmd.args[j as int]@);
            assert((prefix + old_args.take(j as int)).push(a@) =~= prefix + old_args.take(j + 1));
        }
        new_args.push(a);
        j += 1;
    }
    assert(old_args.take(j as int) =~= old_args);
    cmd.name = Some(first);
    cmd.args = new_args;
    true
}

} // verus!
