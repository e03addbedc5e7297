//! `history`, `type`, and the prompt: what the shell tells about itself.

use crate::builtins::{Line, LineView};
use crate::registry::{find_command, is_builtin_name};
use crate::strmap::StrMap;
use crate::text::{chars_of, decimal, push_decimal, push_str, string_of};
use vstd::prelude::*;

verus! {

/// The line of the history entry number `i`, counted from 1.
pub open spec fn history_line(i: nat, entry: Seq<char>) -> Seq<char> {
    seq![' ', ' '] + decimal(i) + seq![' ', ' '] + entry
}

/// The lines that `history` shows: each entry with its number.
pub fn history_lines(history: &Vec<String>) -> (r: Vec<String>)
    ensures
        r.len() == history.len(),
        forall|i: int|
            0 <= i < r.len() ==> (#[trigger] r[i])@ == history_line((i + 1) as nat, history[i]@),
{
    let mut lines: Vec<String> = Vec::new();
    let mut i: usize = 0;
    while i < history.len()
        invariant
            0 <= i <= history.len(),
            lines.len() == i,
            forall|k: int|
                0 <= k < i ==> (#[trigger] lines[k])@ == history_line((k + 1) as nat, history[k]@),
        decreases history.len() - i,
    {
        let mut out: Vec<char> = Vec::new();
        out.push(' ');
        out.push(' ');
        push_decimal(&mut out, i as u64 + 1);
        out.push(' ');
        out.push(' ');
        push_str(&mut out, history[i].as_str());
        assert(out@ =~= history_line((i + 1) as nat, history[i as int]@));
        lines.push(string_of(&out));
        i += 1;
    }
    lines
}

/// What `type` says of the name `cmd`: its alias, or that it is a
/// builtin, or the file `found` that the search path holds for it, or that
/// there is no such command.
pub open spec fn spec_type_of(
    cmd: Seq<char>,
    aliases: Map<Seq<char>, Seq<char>>,
    found: Option<Seq<char>>,
) -> LineView {
    if aliases.contains_key(cmd) {
        LineView::Out(cmd + " is aliased to `"@ + aliases[cmd] + "`"@)
    } else if is_builtin_name(cmd) {
        LineView::Out(cmd + " is a shell builtin"@)
    } else {
        match found {
            Some(path) => LineView::Out(cmd + " is "@ + path),
            None => LineView::Diag("cerf: type: "@ + cmd + ": not found"@),
        }
    }
}

/// What `type` says of the name `cmd`, given the file that the search
/// path holds for it.
pub fn type_of(cmd: &str, aliases: &StrMap, found: Option<&str>) -> (r: Line)
    requires
        aliases.wf(),
    ensures
        r@ == spec_type_of(
            cmd@,
            aliases@,
            match found {
                Some(p) => Some(p@),
                None => None,
            },
        ),
{
    let mut out: Vec<char> = Vec::new();
    match aliases.get(cmd) {
        Some(value) => {
            push_str(&mut out, cmd);
            push_str(&mut out, " is aliased to `");
            push_str(&mut out, value.as_str());
            push_str(&mut out, "`");
            assert(out@ =~= cmd@ + " is aliased to `"@ + value@ + "`"@);
            return Line::Out(string_of(&out));
        },
        None => {},
    }
    if find_command(cmd).is_some() {
        push_str(&mut out, cmd);
        push_str(&mut out, " is a shell builtin");
        assert(out@ =~= cmd@ + " is a shell builtin"@);
        return Line::Out(string_of(&out));
    }
    match found {
        Some(path) => {
            push_str(&mut out, cmd);
            push_str(&mut out, " is ");
            push_str(&mut out, path);
            assert(out@ =~= cmd@ + " is "@ + path@);
            Line::Out(string_of(&out))
        },
        None => {
            push_str(&mut out, "cerf: type: ");
            push_str(&mut out, cmd);
            push_str(&mut out, ": not found");
            assert(out@ =~= "cerf: type: "@ + cmd@ + ": not found"@);
            Line::Diag(string_of(&out))
        },
    }
}

/// The working directory as the prompt shows it: `~` in place of the home
/// directory where it is the directory itself or a directory above.
pub open spec fn spec_short_dir(cwd: Seq<char>, home: Option<Seq<char>>) -> Seq<char> {
    match home {
        Some(h) => if h.len() == 0 {
            cwd
        } else if cwd == h {
            seq!['~']
        } else if cwd.len() > h.len() && cwd.subrange(0, h.len() as int) == h && (cwd[h.len() as int]
            == '/' || h.last() == '/') {
            seq!['~'] + (if h.last() == '/' {
                seq!['/']
            } else {
                Seq::empty()
            }) + cwd.subrange(h.len() as int, cwd.len() as int)
        } else {
            cwd
        },
        None => cwd,
    }
}

/// The prompt: `cf`, the working directory, and `>`.
pub open spec fn spec_prompt(cwd: Seq<char>, home: Option<Seq<char>>) -> Seq<char> {
    seq!['c', 'f', ' '] + spec_short_dir(cwd, home) + seq![' ', '>', ' ']
}

/// The prompt for the working directory `cwd`.
pub fn prompt(cwd: &str, home: Option<&str>) -> (r: String)
    ensures
        r@ == spec_prompt(
            cwd@,
            match home {
                Some(h) => Some(h@),
                None => None,
            },
        ),
{
    let c = chars_of(cwd);
    let mut out: Vec<char> = Vec::new();
    out.push('c');
    out.push('f');
    out.push(' ');
    let ghost head = out@;
    let mut shortened = false;
    match home {
        Some(hs) => {
            let h = chars_of(hs);
            let n = h.len();
            if n > 0 && n <= c.len() {
                let mut same = true;
                let mut i: usize = 0;
                assert(c@.subrange(0, 0) =~= h@.subrange(0, 0));
                while i < n
                    invariant
                        0 <= i <= n <= c.len(),
                        n == h.len(),
                        same == (c@.subrange(0, i as int) == h@.subrange(0, i as int)),
                    decreases n - i,
                {
                    proof {
                        let a = c@.subrange(0, i + 1);
                        let b = h@.subrange(0, i + 1);
                        assert(a.drop_last() =~= c@.subrange(0, i as int));
                        assert(b.drop_last() =~= h@.subrange(0, i as int));
                        assert(a.last() == c[i as int]);
                        assert(b.last() == h[i as int]);
                        if a == b {
                            assert(a.drop_last() == b.drop_last());
                        }
                        if c@.subrange(0, i as int) == h@.subrange(0, i as int) && c[i as int]
                            == h[i as int] {
                            assert(a =~= b);
                        }
                    }
                    if c[i] != h[i] {
                        same = false;
                    }
                    i += 1;
                }
                assert(h@.subrange(0, n as int) =~= h@);
                if same {
                    if c.len() == n {
                        assert(c@.subrange(0, n as int) =~= c@);
                        out.push('~');
                        shortened = true;
                    } else if c[n] == '/' || h[n - 1] == '/' {
                        out.push('~');
                        if h[n - 1] == '/' {
                            out.push('/');
                        }
                        let mut k: usize = n;
                        let ghost base = out@;
                        while k < c.len()
                            invariant
                                n <= k <= c.len(),
                                out@ == base + c@.subrange(n as int, k as int),
                            decreases c.len() - k,
                        {
                            out.push(c[k]);
                            assert(out@ =~= base + c@.subrange(n as int, k + 1));
                            k += 1;
                        }
                        shortened = true;
                    }
                } else {
                    proof {
                        if c@ == h@ {
                            assert(c@.subrange(0, n as int) =~= c@);
                        }
                    }
                }
            }
        },
        None => {},
    }
    if !shortened {
        push_str(&mut out, cwd);
    }
    assert(out@ =~= head + spec_short_dir(
        cwd@,
        match home {
            Some(h) => Some(h@),
            None => None,
        },
    ));
    out.push(' ');
    out.push('>');
    out.push(' ');
    string_of(&out)
}

} // verus!
