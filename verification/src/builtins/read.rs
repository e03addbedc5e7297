//! `read`: its options, and how a line is split among variables.

use crate::ast::{lemma_view_seq_push, view_seq};
use crate::text::{chars_of, is_space, skip_space, space, substring};
use vstd::prelude::*;

verus! {

/// What `read` is asked to do. Words are given by their index among the
/// arguments.
#[derive(Debug, Clone, Copy, PartialEq, Eq)]
pub struct ReadRequest {
    /// `-r`: a backslash at the end of a line does not continue it.
    pub raw: bool,
    /// `-p PROMPT`: the index of the prompt.
    pub prompt: Option<usize>,
    /// The index of the first name; the number of arguments where there is
    /// none, and the line goes to `REPLY`.
    pub names_from: usize,
}

/// Why the arguments of `read` are refused.
#[derive(Debug, Clone, Copy, PartialEq, Eq)]
pub enum ReadError {
    /// `-p` is the last argument.
    MissingPrompt,
    /// The argument at this index is an option that `read` does not know.
    InvalidOption(usize),
}

/// Whether `arg` starts like an option: with `-`.
pub open spec fn is_option(arg: Seq<char>) -> bool {
    arg.len() > 0 && arg[0] == '-'
}

/// What the arguments `args[i..]` ask for, given what the arguments before
/// have asked for: `-r`, `-s` and `-p PROMPT` are options; the first
/// argument that is no option and all behind it are names.
pub open spec fn read_from(args: Seq<Seq<char>>, i: int, raw: bool, prompt: Option<usize>) -> Result<
    ReadRequest,
    ReadError,
>
    decreases args.len() - i,
{
    if i < 0 || i >= args.len() {
        Ok(ReadRequest { raw, prompt, names_from: args.len() as usize })
    } else if args[i] == "-r"@ {
        read_from(args, i + 1, true, prompt)
    } else if args[i] == "-s"@ {
        read_from(args, i + 1, raw, prompt)
    } else if args[i] == "-p"@ {
        if i + 1 < args.len() {
            read_from(args, i + 2, raw, Some((i + 1) as usize))
        } else {
            Err(ReadError::MissingPrompt)
        }
    } else if is_option(args[i]) {
        Err(ReadError::InvalidOption(i as usize))
    } else {
        Ok(ReadRequest { raw, prompt, names_from: i as usize })
    }
}

/// What the arguments of `read` ask for.
pub fn read_request(args: &[String]) -> (r: Result<ReadRequest, ReadError>)
    ensures
        r == read_from(view_seq(args@), 0, false, None),
        r matches Ok(q) ==> q.names_from <= args.len() && (q.prompt matches Some(p) ==> p
            < args.len()),
{
    let ghost all = view_seq(args@);
    let n = args.len();
    let mut raw = false;
    let mut prompt: Option<usize> = None;
    let mut i: usize = 0;
    while i < n
        invariant
            0 <= i <= n == args.len(),
            all == view_seq(args@),
            prompt matches Some(p) ==> p < n,
            read_from(all, 0, false, None) == read_from(all, i as int, raw, prompt),
        decreases n - i,
    {
        let arg = args[i].as_str();
        assert(all[i as int] == arg@);
        if arg.eq("-r") {
            raw = true;
            i += 1;
        } else if arg.eq("-s") {
            i += 1;
        } else if arg.eq("-p") {
            if i + 1 < n {
                prompt = Some(i + 1);
                i += 2;
            } else {
                return Err(ReadError::MissingPrompt);
            }
        } else {
            let a = chars_of(arg);
            if a.len() > 0 && a[0] == '-' {
                return Err(ReadError::InvalidOption(i));
            }
            return Ok(ReadRequest { raw, prompt, names_from: i });
        }
    }
    Ok(ReadRequest { raw, prompt, names_from: n })
}

/// The separators that a shell splits at where `IFS` is not set.
pub open spec fn default_ifs() -> Seq<char> {
    seq![' ', '\t', '\n']
}

/// Whether a field ends at `c`: at whitespace where the separators are
/// the default ones, else at one of the separators.
pub open spec fn ends_field(c: char, ifs: Seq<char>) -> bool {
    if ifs == default_ifs() {
        is_space(c)
    } else {
        ifs.contains(c)
    }
}

/// The index of the first character at or after `i` at which a field ends,
/// or the length of `s`.
pub open spec fn field_end(s: Seq<char>, i: int, ifs: Seq<char>) -> int
    decreases s.len() - i,
{
    if 0 <= i < s.len() && !ends_field(s[i], ifs) {
        field_end(s, i + 1, ifs)
    } else {
        i
    }
}

/// The values of `count` variables that share what is left of the line `s`
/// from index `i` on. With the default separators, whitespace before a
/// field is skipped. Every variable but the last takes one field; the last
/// takes all that is left. With separators of one's own, the separator
/// behind a field is dropped.
pub open spec fn fields_from(s: Seq<char>, i: int, count: nat, ifs: Seq<char>) -> Seq<Seq<char>>
    decreases count,
{
    if count == 0 || i < 0 || i > s.len() {
        Seq::new(count, |k: int| Seq::empty())
    } else {
        let start = if ifs == default_ifs() {
            skip_space(s, i)
        } else {
            i
        };
        if count == 1 {
            seq![s.subrange(start, s.len() as int)]
        } else {
            let end = field_end(s, start, ifs);
            let next = if ifs == default_ifs() || end >= s.len() {
                end
            } else {
                end + 1
            };
            seq![s.subrange(start, end)] + fields_from(s, next, (count - 1) as nat, ifs)
        }
    }
}

fn in_set(c: char, set: &Vec<char>) -> (r: bool)
    ensures
        r == set@.contains(c),
{
    let mut k: usize = 0;
    while k < set.len()
        invariant
            0 <= k <= set.len(),
            forall|j: int| 0 <= j < k ==> set[j] != c,
        decreases set.len() - k,
    {
        if set[k] == c {
            return true;
        }
        k += 1;
    }
    false
}

fn ends(c: char, plain: bool, set: &Vec<char>) -> (r: bool)
    requires
        plain == (set@ == default_ifs()),
    ensures
        r == ends_field(c, set@),
{
    if plain {
        space(c)
    } else {
        in_set(c, set)
    }
}

/// The values that `count` variables get from `line`.
pub fn read_fields(line: &str, count: usize, ifs: &str) -> (r: Vec<String>)
    ensures
        view_seq(r@) == fields_from(line@, 0, count as nat, ifs@),
{
    let s = chars_of(line);
    let set = chars_of(ifs);
    let n = s.len();
    let plain = set.len() == 3 && set[0] == ' ' && set[1] == '\t' && set[2] == '\n';
    proof {
        if plain {
            assert(set@ =~= default_ifs());
        }
    }
    let mut out: Vec<String> = Vec::new();
    let mut cur: usize = 0;
    let mut left: usize = count;
    assert(view_seq(out@) + fields_from(s@, 0, count as nat, set@) =~= fields_from(
        s@,
        0,
        count as nat,
        set@,
    ));
    while left > 0
        invariant
            0 <= cur <= n == s.len(),
            s@ == line@,
            set@ == ifs@,
            plain == (set@ == default_ifs()),
            fields_from(s@, 0, count as nat, set@) == view_seq(out@) + fields_from(
                s@,
                cur as int,
                left as nat,
                set@,
            ),
        decreases left,
    {
        let mut start = cur;
        if plain {
            while start < n && space(s[start])
                invariant
                    cur <= start <= n == s.len(),
                    skip_space(s@, cur as int) == skip_space(s@, start as int),
                decreases n - start,
            {
                start += 1;
            }
        }
        if left == 1 {
            let field = substring(&s, start, n);
            proof {
                lemma_view_seq_push(out@, field);
                assert(view_seq(out@).push(field@) =~= view_seq(out@) + seq![field@]);
            }
            out.push(field);
            return out;
        }
        let mut end = start;
        while end < n && !ends(s[end], plain, &set)
            invariant
                start <= end <= n == s.len(),
                plain == (set@ == default_ifs()),
                field_end(s@, start as int, set@) == field_end(s@, end as int, set@),
            decreases n - end,
        {
            end += 1;
        }
        let field = substring(&s, start, end);
        let next = if plain || end >= n {
            end
        } else {
            end + 1
        };
        proof {
            let rest = fields_from(s@, next as int, (left - 1) as nat, set@);
            lemma_view_seq_push(out@, field);
            assert(view_seq(out@).push(field@) + rest =~= view_seq(out@) + (seq![field@] + rest));
        }
        out.push(field);
        cur = next;
        left -= 1;
    }
    assert(view_seq(out@) + Seq::<Seq<char>>::empty() =~= view_seq(out@));
    out
}

} // verus!
