//! How a command list is written out so that it reads back as itself.
//!
//! Words are written bare where that is safe, and in quotes where it is
//! not. Redirections are written before arguments. A `$` is written twice,
//! so that variable expansion gives it back.

use crate::ast::{
    ArgView, CommandView, Connector, EntryView, PipelineView, RedirectKind, RedirectView,
};
use crate::expand::{expand_from, is_identifier, spec_expand};
use crate::grammar::{
    assignment_at, assignments_from, bang_at, command_at, connector_at, ends_list, entries_of,
    items_from, list_from, pipe_at, piped_from, pipeline_at, redirect_at, redirect_op_at,
    segment_at, segments_from, word_at,
};
use crate::locality::{
    lemma_assignments_move, lemma_command_moves, lemma_connector_moves, lemma_items_move,
    lemma_list_moves, lemma_piped_moves, lemma_run_moves, lemma_segments_move,
    lemma_word_moves,
};
use crate::parser::{spec_parse, unmarked, LineView};
use crate::text::{
    in_class, is_space, is_word_char, lemma_run_end, run_end, skip_space, skip_space_back,
    trimmed, CharClass,
};
use vstd::prelude::*;

verus! {

/// Where a run of the class `k` ends that starts at `i` and in which `j`
/// is the first index of a character of another class.
pub proof fn lemma_run_to(s: Seq<char>, i: int, j: int, k: CharClass)
    requires
        0 <= i <= j <= s.len(),
        forall|x: int| i <= x < j ==> in_class(k, #[trigger] s[x]),
        j < s.len() ==> !in_class(k, s[j]),
    ensures
        run_end(s, i, k) == j,
    decreases j - i,
{
    if i < j {
        lemma_run_to(s, i + 1, j, k);
    }
}

/// Whether a word can be written bare: it is not empty, and holds only
/// characters of unquoted words that are neither whitespace nor `$`.
pub open spec fn is_plain(v: Seq<char>) -> bool {
    &&& v.len() > 0
    &&& forall|i: int|
        0 <= i < v.len() ==> is_word_char(#[trigger] v[i]) && !is_space(v[i]) && v[i] != '$'
}

/// Whether nothing of a word can follow where `post` starts.
pub open spec fn ends_word(post: Seq<char>) -> bool {
    post.len() == 0 || (post[0] != '"' && post[0] != '\'' && !is_word_char(post[0]))
}

/// The quote in which the start of `v` is written: a single quote before
/// a double quote, a double quote before anything else.
pub open spec fn quote_for(v: Seq<char>) -> char {
    if v.len() > 0 && v[0] == '"' {
        '\''
    } else {
        '"'
    }
}

/// `v` in quoted pieces: each piece is the longest stretch that holds none
/// of the quote that it is written in.
pub open spec fn spell_pieces(v: Seq<char>) -> Seq<char>
    decreases v.len(),
{
    if v.len() == 0 {
        Seq::empty()
    } else {
        let q = quote_for(v);
        let n = run_end(v, 0, CharClass::Until(q));
        if 0 < n <= v.len() {
            seq![q] + v.subrange(0, n) + seq![q] + spell_pieces(v.subrange(n, v.len() as int))
        } else {
            Seq::empty()
        }
    }
}

/// A word that does not count as quoted, written in quotes: an empty pair
/// of quotes, and the pieces of the word, or another empty pair where the
/// word is empty.
pub open spec fn spell_mixed(v: Seq<char>) -> Seq<char> {
    seq!['"', '"'] + (if v.len() == 0 {
        seq!['"', '"']
    } else {
        spell_pieces(v)
    })
}

/// Whether a word can be written in one pair of quotes: it lacks one of
/// the two quotes.
pub open spec fn quotable(v: Seq<char>) -> bool {
    !v.contains('"') || !v.contains('\'')
}

/// A word that counts as quoted: in double quotes where it holds none, else
/// in single quotes.
pub open spec fn spell_quoted(v: Seq<char>) -> Seq<char> {
    let q = if v.contains('"') {
        '\''
    } else {
        '"'
    };
    seq![q] + v + seq![q]
}

/// An argument as it is written.
pub open spec fn spell_arg(a: ArgView) -> Seq<char> {
    if a.quoted {
        spell_quoted(a.value)
    } else if is_plain(a.value) {
        a.value
    } else {
        spell_mixed(a.value)
    }
}

/// The pieces of a word read back as its segments.
pub proof fn lemma_pieces_read_back(v: Seq<char>, post: Seq<char>)
    requires
        ends_word(post),
    ensures
        segments_from(spell_pieces(v) + post, 0).0 == spell_pieces(v).len(),
        segments_from(spell_pieces(v) + post, 0).1 == v,
        v.len() > 0 ==> segments_from(spell_pieces(v) + post, 0).2 > 0,
    decreases v.len(),
{
    let s = spell_pieces(v) + post;
    if v.len() == 0 {
        assert(s =~= post);
        assert(segment_at(s, 0) is None);
    } else {
        let q = quote_for(v);
        let k = CharClass::Until(q);
        lemma_run_end(v, 0, k);
        let n = run_end(v, 0, k);
        assert(in_class(k, v[0]));
        assert(n > 0) by {
            crate::text::lemma_run_end_advances(v, 0, k);
        }
        let head = v.subrange(0, n);
        let rest = v.subrange(n, v.len() as int);
        let tail = spell_pieces(rest);
        assert(s =~= seq![q] + head + seq![q] + (tail + post));
        assert(s[0] == q);
        assert forall|x: int| 1 <= x < n + 1 implies in_class(k, #[trigger] s[x]) by {
            assert(s[x] == v[x - 1]);
        }
        assert(s[n + 1] == q);
        lemma_run_to(s, 1, n + 1, k);
        assert(s.subrange(1, n + 1) =~= head);
        assert(segment_at(s, 0) == Some((n + 2, head, true)));
        lemma_pieces_read_back(rest, post);
        lemma_segments_move(s, n + 2, 0);
        assert(s.skip(n + 2) =~= tail + post);
        assert(head + rest =~= v);
    }
}

/// A word written in quoted pieces reads back as the word, not quoted.
pub proof fn lemma_mixed_reads_back(v: Seq<char>, post: Seq<char>)
    requires
        ends_word(post),
    ensures
        word_at(spell_mixed(v) + post, 0) == Some(
            (spell_mixed(v).len() as int, ArgView { value: v, quoted: false }),
        ),
{
    reveal(word_at);
    let s = spell_mixed(v) + post;
    let k = CharClass::Until('"');
    assert(s[0] == '"');
    assert(s[1] == '"');
    lemma_run_to(s, 1, 1, k);
    assert(s.subrange(1, 1) =~= Seq::<char>::empty());
    assert(segment_at(s, 0) == Some((2int, Seq::<char>::empty(), true)));
    lemma_segments_move(s, 2, 0);
    if v.len() == 0 {
        let t = s.skip(2);
        assert(t =~= seq!['"', '"'] + post);
        lemma_run_to(t, 1, 1, k);
        assert(t.subrange(1, 1) =~= Seq::<char>::empty());
        assert(segment_at(t, 0) == Some((2int, Seq::<char>::empty(), true)));
        assert(t.skip(2) =~= post);
        lemma_segments_move(t, 2, 0);
        assert(segment_at(post, 0) is None);
        assert(segments_from(post, 0) == (0int, Seq::<char>::empty(), 0nat));
        assert(segments_from(t, 2).1 =~= Seq::<char>::empty());
        assert(segments_from(t, 0).1 =~= Seq::<char>::empty());
        assert(Seq::<char>::empty() + segments_from(t, 0).1 =~= v);
    } else {
        assert(s.skip(2) =~= spell_pieces(v) + post);
        lemma_pieces_read_back(v, post);
        assert(Seq::<char>::empty() + v =~= v);
    }
}

/// A word written bare reads back as the word, not quoted.
pub proof fn lemma_plain_reads_back(v: Seq<char>, post: Seq<char>)
    requires
        is_plain(v),
        ends_word(post),
    ensures
        word_at(v + post, 0) == Some((v.len() as int, ArgView { value: v, quoted: false })),
{
    reveal(word_at);
    let s = v + post;
    let n = v.len() as int;
    assert(s[0] == v[0]);
    assert forall|x: int| 0 <= x < n implies in_class(CharClass::Word, #[trigger] s[x]) by {
        assert(s[x] == v[x]);
    }
    if n < s.len() {
        assert(s[n] == post[0]);
    }
    lemma_run_to(s, 0, n, CharClass::Word);
    assert(s.subrange(0, n) =~= v);
    assert(segment_at(s, 0) == Some((n, v, false)));
    assert(segment_at(s, n) is None);
    assert(v + Seq::<char>::empty() =~= v);
}

/// A word written in one pair of quotes reads back as the word, quoted.
pub proof fn lemma_quoted_reads_back(v: Seq<char>, post: Seq<char>)
    requires
        quotable(v),
        ends_word(post),
    ensures
        word_at(spell_quoted(v) + post, 0) == Some(
            (spell_quoted(v).len() as int, ArgView { value: v, quoted: true }),
        ),
{
    reveal(word_at);
    let q = if v.contains('"') {
        '\''
    } else {
        '"'
    };
    let s = spell_quoted(v) + post;
    let n = v.len() as int;
    let k = CharClass::Until(q);
    assert(s[0] == q);
    assert forall|x: int| 1 <= x < n + 1 implies in_class(k, #[trigger] s[x]) by {
        assert(s[x] == v[x - 1]);
        if v[x - 1] == q {
            assert(v.contains(q));
        }
    }
    assert(s[n + 1] == q);
    lemma_run_to(s, 1, n + 1, k);
    assert(s.subrange(1, n + 1) =~= v);
    assert(segment_at(s, 0) == Some((n + 2, v, true)));
    if n + 2 < s.len() {
        assert(s[n + 2] == post[0]);
    }
    assert(segment_at(s, n + 2) is None);
    assert(v + Seq::<char>::empty() =~= v);
}

/// An argument reads back as itself.
pub proof fn lemma_arg_reads_back(a: ArgView, post: Seq<char>)
    requires
        a.quoted ==> quotable(a.value),
        ends_word(post),
    ensures
        word_at(spell_arg(a) + post, 0) == Some((spell_arg(a).len() as int, a)),
{
    if a.quoted {
        lemma_quoted_reads_back(a.value, post);
    } else if is_plain(a.value) {
        lemma_plain_reads_back(a.value, post);
    } else {
        lemma_mixed_reads_back(a.value, post);
    }
}

/// Whether a command can end where `post` starts: after blanks, `post`
/// ends or goes on with `|`, `;` or `&`.
pub open spec fn ends_command(post: Seq<char>) -> bool {
    let b = run_end(post, 0, CharClass::Blank);
    b >= post.len() || post[b] == '|' || post[b] == ';' || post[b] == '&'
}

/// Where a command can end, a word can end.
pub proof fn lemma_ends_command(post: Seq<char>)
    requires
        ends_command(post),
    ensures
        ends_word(post),
        0 <= run_end(post, 0, CharClass::Blank) <= post.len(),
        word_at(post, run_end(post, 0, CharClass::Blank)) is None,
        assignment_at(post, run_end(post, 0, CharClass::Blank)) is None,
        redirect_op_at(post, run_end(post, 0, CharClass::Blank)) is None,
{
    reveal(word_at);
    reveal(assignment_at);
    lemma_run_end(post, 0, CharClass::Blank);
}

/// The value of an assignment as it is written: nothing where it is empty.
pub open spec fn spell_value(v: Seq<char>) -> Seq<char> {
    if v.len() == 0 {
        Seq::empty()
    } else if is_plain(v) {
        v
    } else {
        spell_mixed(v)
    }
}

/// The file of a redirection as it is written.
pub open spec fn spell_file(v: Seq<char>) -> Seq<char> {
    if is_plain(v) {
        v
    } else {
        spell_mixed(v)
    }
}

/// Whether the name of a command can be written bare: it can as a word,
/// does not look like an assignment, and starts neither like a negation
/// nor like a comment.
pub open spec fn safe_name(v: Seq<char>) -> bool {
    is_plain(v) && !v.contains('=') && v[0] != '!' && v[0] != '#'
}

/// The name of a command as it is written.
pub open spec fn spell_name(v: Seq<char>) -> Seq<char> {
    if safe_name(v) {
        v
    } else {
        spell_mixed(v)
    }
}

/// An assignment as it is written: its name, `=`, and its value.
pub open spec fn spell_assignment(pair: (Seq<char>, Seq<char>)) -> Seq<char> {
    pair.0 + seq!['='] + spell_value(pair.1)
}

/// Assignments as they are written: with a blank between each two.
pub open spec fn spell_assignments(pairs: Seq<(Seq<char>, Seq<char>)>) -> Seq<char>
    decreases pairs.len(),
{
    if pairs.len() == 0 {
        Seq::empty()
    } else if pairs.len() == 1 {
        spell_assignment(pairs[0])
    } else {
        spell_assignment(pairs[0]) + seq![' '] + spell_assignments(pairs.drop_first())
    }
}

/// The operator of a redirection as it is written.
pub open spec fn spell_op(kind: RedirectKind) -> Seq<char> {
    match kind {
        RedirectKind::StdoutAppend => seq!['>', '>'],
        RedirectKind::StdoutOverwrite => seq!['>'],
        RedirectKind::StdinFrom => seq!['<'],
    }
}

/// A redirection as it is written: a blank, its operator, a blank, and
/// its file.
pub open spec fn spell_redirect(r: RedirectView) -> Seq<char> {
    seq![' '] + spell_op(r.kind) + seq![' '] + spell_file(r.file)
}

/// Redirections as they are written, one after the other.
pub open spec fn spell_redirects(rs: Seq<RedirectView>) -> Seq<char>
    decreases rs.len(),
{
    if rs.len() == 0 {
        Seq::empty()
    } else {
        spell_redirect(rs[0]) + spell_redirects(rs.drop_first())
    }
}

/// Arguments as they are written: each with a blank before it.
pub open spec fn spell_args(args: Seq<ArgView>) -> Seq<char>
    decreases args.len(),
{
    if args.len() == 0 {
        Seq::empty()
    } else {
        seq![' '] + spell_arg(args[0]) + spell_args(args.drop_first())
    }
}

/// The name of a command as it is written, with a blank before it where
/// something stands before it; nothing where the command has no name.
pub open spec fn spell_opt_name(name: Option<Seq<char>>, first: bool) -> Seq<char> {
    match name {
        Some(n) => gap(first) + spell_name(n),
        None => Seq::empty(),
    }
}

/// A command as it is written: its assignments, its name, its
/// redirections, and its arguments.
#[verifier::opaque]
pub open spec fn spell_command(c: CommandView) -> Seq<char> {
    spell_assignments(c.assignments) + spell_opt_name(c.name, c.assignments.len() == 0)
        + spell_redirects(c.redirects) + spell_args(c.args)
}

/// Whether the arguments that count as quoted lack one of the two quotes.
pub open spec fn quotable_args(args: Seq<ArgView>) -> bool {
    forall|i: int| 0 <= i < args.len() ==> ((#[trigger] args[i]).quoted ==> quotable(args[i].value))
}

/// Whether the names of the assignments are identifiers.
pub open spec fn named_by_identifiers(pairs: Seq<(Seq<char>, Seq<char>)>) -> bool {
    forall|i: int| 0 <= i < pairs.len() ==> is_identifier(#[trigger] pairs[i].0)
}

/// Whether a command is one that the grammar can read: the names of its
/// assignments are identifiers; without a name it has an assignment, and
/// arguments only behind a redirection; and an argument that counts as
/// quoted lacks one of the two quotes.
pub open spec fn wf_command(c: CommandView) -> bool {
    &&& named_by_identifiers(c.assignments)
    &&& c.name is None ==> c.assignments.len() > 0 && (c.args.len() > 0 ==> c.redirects.len() > 0)
    &&& quotable_args(c.args)
}

/// A blank at `e` is passed over, and so are the blanks behind it.
proof fn lemma_blank_then(s: Seq<char>, e: int)
    requires
        0 <= e < s.len(),
        s[e] == ' ',
    ensures
        run_end(s, e, CharClass::Blank) == e + 1 + run_end(s.skip(e + 1), 0, CharClass::Blank),
{
    lemma_run_moves(s, e + 1, 0, CharClass::Blank);
}

/// Where no blank stands, no blank is passed over.
proof fn lemma_no_blank(s: Seq<char>, e: int)
    requires
        0 <= e <= s.len(),
        e < s.len() ==> !crate::text::is_blank(s[e]),
    ensures
        run_end(s, e, CharClass::Blank) == e,
{
}

/// The value of an assignment reads back as itself, as the word behind `=`
/// or as the lack of one.
proof fn lemma_value_reads_back(v: Seq<char>, post: Seq<char>)
    requires
        ends_word(post),
    ensures
        match word_at(spell_value(v) + post, 0) {
            Some((end, w)) => v.len() > 0 && end == spell_value(v).len() && w.value == v,
            None => v.len() == 0,
        },
{
    reveal(word_at);
    if v.len() == 0 {
        assert(spell_value(v) + post =~= post);
        assert(segment_at(post, 0) is None);
    } else if is_plain(v) {
        lemma_plain_reads_back(v, post);
    } else {
        lemma_mixed_reads_back(v, post);
    }
}

/// The file of a redirection reads back as itself.
proof fn lemma_file_reads_back(v: Seq<char>, post: Seq<char>)
    requires
        ends_word(post),
    ensures
        word_at(spell_file(v) + post, 0) matches Some(w) && w.0 == spell_file(v).len() && w.1.value
            == v,
        spell_file(v).len() > 0,
        !crate::text::is_blank(spell_file(v)[0]),
{
    if is_plain(v) {
        lemma_plain_reads_back(v, post);
    } else {
        lemma_mixed_reads_back(v, post);
    }
}

/// An argument starts with something that is neither a blank nor the
/// operator of a redirection.
proof fn lemma_arg_start(a: ArgView)
    ensures
        spell_arg(a).len() > 0,
        !crate::text::is_blank(spell_arg(a)[0]),
        spell_arg(a)[0] != '>',
        spell_arg(a)[0] != '<',
{
    if !a.quoted && is_plain(a.value) {
        assert(is_word_char(a.value[0]));
    }
}

/// The name of a command reads back as itself, and is taken neither for
/// an assignment nor for blanks.
proof fn lemma_name_reads_back(v: Seq<char>, post: Seq<char>)
    requires
        ends_word(post),
        post.len() > 0 ==> post[0] != '=',
    ensures
        word_at(spell_name(v) + post, 0) matches Some(w) && w.0 == spell_name(v).len() && w.1.value
            == v,
        assignment_at(spell_name(v) + post, 0) is None,
        spell_name(v).len() > 0,
        !crate::text::is_blank(spell_name(v)[0]),
        spell_name(v)[0] != '!',
        spell_name(v)[0] != '#',
{
    reveal(assignment_at);
    let s = spell_name(v) + post;
    if safe_name(v) {
        lemma_plain_reads_back(v, post);
        assert(s[0] == v[0]);
        if crate::text::is_ident_start(s[0]) {
            lemma_run_end(s, 0, CharClass::Ident);
            let j = run_end(s, 0, CharClass::Ident);
            if j < v.len() {
                assert(s[j] == v[j]);
                if v[j] == '=' {
                    assert(v.contains('='));
                }
            } else if j < s.len() {
                assert(s[v.len() as int] == post[0]);
                if j > v.len() {
                    assert(in_class(CharClass::Ident, s[v.len() as int]));
                }
            }
        }
    } else {
        lemma_mixed_reads_back(v, post);
        assert(s[0] == '"');
    }
}

/// One assignment reads back as itself.
proof fn lemma_assignment_reads_back(pair: (Seq<char>, Seq<char>), after: Seq<char>)
    requires
        is_identifier(pair.0),
        ends_word(after),
    ensures
        assignment_at(spell_assignment(pair) + after, 0) == Some(
            (spell_assignment(pair).len() as int, pair),
        ),
        spell_assignment(pair).len() > 0,
        crate::text::is_ident_start(spell_assignment(pair)[0]),
{
    reveal(assignment_at);
    let name = pair.0;
    let vt = spell_value(pair.1);
    let s = spell_assignment(pair) + after;
    let j = name.len() as int;
    assert(s[0] == name[0]);
    assert forall|x: int| 0 <= x < j implies in_class(CharClass::Ident, #[trigger] s[x]) by {
        assert(s[x] == name[x]);
    }
    assert(s[j] == '=');
    lemma_run_to(s, 0, j, CharClass::Ident);
    assert(s.subrange(0, j) =~= name);
    assert(s.skip(j + 1) =~= vt + after);
    lemma_value_reads_back(pair.1, after);
    lemma_word_moves(s, j + 1, 0);
}

/// Assignments read back as themselves. Behind the last, the blanks of
/// what follows are passed over.
#[verifier::spinoff_prover]
proof fn lemma_assignments_read_back(pairs: Seq<(Seq<char>, Seq<char>)>, rest: Seq<char>)
    requires
        named_by_identifiers(pairs),
        pairs.len() > 0 ==> ends_word(rest),
        pairs.len() == 0 ==> assignment_at(rest, 0) is None,
        0 <= run_end(rest, 0, CharClass::Blank) <= rest.len(),
        assignment_at(rest, run_end(rest, 0, CharClass::Blank)) is None,
    ensures
        assignments_from(spell_assignments(pairs) + rest, 0) == (
            if pairs.len() == 0 {
                0int
            } else {
                spell_assignments(pairs).len() + run_end(rest, 0, CharClass::Blank)
            },
            pairs,
        ),
        pairs.len() > 0 ==> spell_assignments(pairs).len() > 0 && crate::text::is_ident_start(
            spell_assignments(pairs)[0],
        ),
    decreases pairs.len(),
{
    reveal(assignments_from);
    let s = spell_assignments(pairs) + rest;
    if pairs.len() == 0 {
        assert(s =~= rest);
    } else if pairs.len() == 1 {
        let first = spell_assignment(pairs[0]);
        let e = first.len() as int;
        let b = run_end(rest, 0, CharClass::Blank);
        lemma_assignment_reads_back(pairs[0], rest);
        assert(s.skip(e) =~= rest);
        lemma_run_moves(s, e, 0, CharClass::Blank);
        lemma_assignments_move(s, e, b);
        assert(assignments_from(rest, b) == (b, Seq::<(Seq<char>, Seq<char>)>::empty()));
        assert(seq![pairs[0]] + Seq::<(Seq<char>, Seq<char>)>::empty() =~= pairs);
    } else {
        let first = spell_assignment(pairs[0]);
        let tail = pairs.drop_first();
        let t2 = spell_assignments(tail) + rest;
        let after = seq![' '] + t2;
        let e = first.len() as int;
        assert(s =~= first + after);
        lemma_assignment_reads_back(pairs[0], after);
        assert(spell_assignments(pairs)[0] == first[0]);
        assert(s[e] == ' ');
        assert(s.skip(e + 1) =~= t2);
        lemma_blank_then(s, e);
        assert(named_by_identifiers(tail)) by {
            assert forall|i: int| 0 <= i < tail.len() implies is_identifier(
                #[trigger] tail[i].0,
            ) by {
                assert(tail[i] == pairs[i + 1]);
            }
        }
        lemma_assignments_read_back(tail, rest);
        assert(t2[0] == spell_assignments(tail)[0]);
        lemma_no_blank(t2, 0);
        lemma_assignments_move(s, e + 1, 0);
        assert(seq![pairs[0]] + tail =~= pairs);
    }
}

/// One redirection reads back as itself, from its blank or from behind it.
proof fn lemma_redirect_reads_back(r: RedirectView, t2: Seq<char>, lead: int)
    requires
        ends_word(t2),
        lead == 0 || lead == 1,
    ensures
        redirect_at(spell_redirect(r) + t2, lead) == Some((spell_redirect(r).len() as int, r)),
        spell_redirect(r).len() >= 2,
        spell_redirect(r)[0] == ' ',
        spell_redirect(r)[1] == '>' || spell_redirect(r)[1] == '<',
{
    reveal(redirect_at);
    let op = spell_op(r.kind);
    let ft = spell_file(r.file);
    let s = spell_redirect(r) + t2;
    lemma_file_reads_back(r.file, t2);
    assert(s[0] == ' ');
    assert(s[1] == op[0]);
    lemma_run_to(s, lead, 1, CharClass::Blank);
    let after: int = 1 + op.len() as int;
    assert(redirect_op_at(s, 1) == Some((after, r.kind))) by {
        if r.kind == RedirectKind::StdoutAppend {
            assert(s[2] == '>');
        } else {
            assert(s[2] == ' ');
        }
    }
    assert(s[after] == ' ');
    assert(s[after + 1] == ft[0]);
    lemma_run_to(s, after, after + 1, CharClass::Blank);
    assert(s.skip(after + 1) =~= ft + t2);
    lemma_word_moves(s, after + 1, 0);
}

/// One argument reads back as itself, behind its blank, where no
/// redirection is read.
proof fn lemma_one_arg_reads_back(a: ArgView, t2: Seq<char>)
    requires
        a.quoted ==> quotable(a.value),
        ends_word(t2),
    ensures
        ({
            let s = seq![' '] + spell_arg(a) + t2;
            &&& redirect_at(s, 0) is None
            &&& run_end(s, 0, CharClass::Blank) == 1
            &&& word_at(s, 1) == Some((1 + spell_arg(a).len() as int, a))
        }),
{
    reveal(redirect_at);
    let at = spell_arg(a);
    let s = seq![' '] + at + t2;
    lemma_arg_reads_back(a, t2);
    lemma_arg_start(a);
    assert(s[0] == ' ');
    assert(s[1] == at[0]);
    lemma_run_to(s, 0, 1, CharClass::Blank);
    assert(redirect_op_at(s, 1) is None);
    assert(s.skip(1) =~= at + t2);
    lemma_word_moves(s, 1, 0);
}

/// Behind the last argument nothing is read, from the start of what
/// follows the command or from behind its blanks.
proof fn lemma_no_item(post: Seq<char>)
    requires
        ends_command(post),
    ensures
        items_from(post, 0) == (0int, Seq::<ArgView>::empty(), Seq::<RedirectView>::empty()),
        items_from(post, run_end(post, 0, CharClass::Blank)) == (
            run_end(post, 0, CharClass::Blank),
            Seq::<ArgView>::empty(),
            Seq::<RedirectView>::empty(),
        ),
{
    reveal(items_from);
    reveal(redirect_at);
    lemma_ends_command(post);
    let pb = run_end(post, 0, CharClass::Blank);
    assert(redirect_at(post, 0) is None);
    lemma_no_blank(post, pb);
    assert(redirect_at(post, pb) is None);
}

/// A redirection is read before the items that follow it.
proof fn lemma_redirect_step(
    r: RedirectView,
    t2: Seq<char>,
    lead: int,
    end: int,
    args: Seq<ArgView>,
    rs: Seq<RedirectView>,
)
    requires
        ends_word(t2),
        lead == 0 || lead == 1,
        items_from(t2, 0) == (end, args, rs),
    ensures
        items_from(spell_redirect(r) + t2, lead) == (
            spell_redirect(r).len() + end,
            args,
            seq![r] + rs,
        ),
{
    reveal(items_from);
    let first = spell_redirect(r);
    let s = first + t2;
    let e = first.len() as int;
    lemma_redirect_reads_back(r, t2, lead);
    assert(s.skip(e) =~= t2);
    lemma_items_move(s, e, 0);
}

/// An argument is read before the items that follow it.
proof fn lemma_arg_step(
    a: ArgView,
    t2: Seq<char>,
    end: int,
    args: Seq<ArgView>,
    rs: Seq<RedirectView>,
)
    requires
        a.quoted ==> quotable(a.value),
        ends_word(t2),
        items_from(t2, 0) == (end, args, rs),
    ensures
        items_from(seq![' '] + spell_arg(a) + t2, 0) == (
            1 + spell_arg(a).len() + end,
            seq![a] + args,
            rs,
        ),
{
    reveal(items_from);
    let s = seq![' '] + spell_arg(a) + t2;
    let e: int = 1 + spell_arg(a).len() as int;
    lemma_one_arg_reads_back(a, t2);
    assert(s.skip(e) =~= t2);
    lemma_items_move(s, e, 0);
}

/// Arguments read back as themselves.
#[verifier::spinoff_prover]
proof fn lemma_args_read_back(args: Seq<ArgView>, post: Seq<char>)
    requires
        quotable_args(args),
        ends_command(post),
    ensures
        items_from(spell_args(args) + post, 0) == (
            spell_args(args).len() as int,
            args,
            Seq::<RedirectView>::empty(),
        ),
        ends_word(spell_args(args) + post),
        (spell_args(args) + post).len() > 0 ==> (spell_args(args) + post)[0] != '=',
    decreases args.len(),
{
    let s = spell_args(args) + post;
    lemma_ends_command(post);
    if args.len() > 0 {
        let a = args[0];
        let tail = args.drop_first();
        let t2 = spell_args(tail) + post;
        assert(s =~= seq![' '] + spell_arg(a) + t2);
        assert(s[0] == ' ');
        assert(quotable_args(tail)) by {
            assert forall|i: int| 0 <= i < tail.len() implies ((#[trigger] tail[i]).quoted
                ==> quotable(tail[i].value)) by {
                assert(tail[i] == args[i + 1]);
            }
        }
        lemma_args_read_back(tail, post);
        lemma_arg_step(a, t2, spell_args(tail).len() as int, tail, Seq::<RedirectView>::empty());
        assert(seq![a] + tail =~= args);
    } else {
        assert(s =~= post);
        lemma_no_item(post);
    }
}

/// Redirections and arguments read back as themselves, from the start of
/// their text or, where a redirection comes first, from behind its blank.
#[verifier::spinoff_prover]
proof fn lemma_items_read_back(
    rs: Seq<RedirectView>,
    args: Seq<ArgView>,
    post: Seq<char>,
    lead: int,
)
    requires
        quotable_args(args),
        ends_command(post),
        lead == 0 || (lead == 1 && rs.len() > 0),
    ensures
        items_from(spell_redirects(rs) + spell_args(args) + post, lead) == (
            (spell_redirects(rs).len() + spell_args(args).len()) as int,
            args,
            rs,
        ),
        ends_word(spell_redirects(rs) + spell_args(args) + post),
        (spell_redirects(rs) + spell_args(args) + post).len() > 0 ==> (spell_redirects(rs)
            + spell_args(args) + post)[0] != '=',
    decreases rs.len(),
{
    let s = spell_redirects(rs) + spell_args(args) + post;
    if rs.len() > 0 {
        let first = spell_redirect(rs[0]);
        let tail = rs.drop_first();
        let t2 = spell_redirects(tail) + spell_args(args) + post;
        assert(s =~= first + t2);
        lemma_items_read_back(tail, args, post, 0);
        lemma_redirect_reads_back(rs[0], t2, lead);
        assert(s[0] == first[0]);
        lemma_redirect_step(
            rs[0],
            t2,
            lead,
            (spell_redirects(tail).len() + spell_args(args).len()) as int,
            args,
            tail,
        );
        assert(seq![rs[0]] + tail =~= rs);
    } else {
        assert(s =~= spell_args(args) + post);
        lemma_args_read_back(args, post);
    }
}

/// The blank that stands before a name that is not the first of its command.
pub open spec fn gap(first: bool) -> Seq<char> {
    if first {
        Seq::empty()
    } else {
        seq![' ']
    }
}

/// The name of a command reads back as itself behind its blank, and
/// nothing before it or in it is taken for an assignment.
#[verifier::spinoff_prover]
proof fn lemma_name_part(n: Seq<char>, first: bool, items: Seq<char>)
    requires
        ends_word(items),
        items.len() > 0 ==> items[0] != '=',
    ensures
        ({
            let rest = gap(first) + spell_name(n) + items;
            let lead = gap(first).len() as int;
            &&& !first ==> ends_word(rest)
            &&& run_end(rest, 0, CharClass::Blank) == lead
            &&& first ==> assignment_at(rest, 0) is None
            &&& assignment_at(rest, lead) is None
            &&& word_at(rest, lead) matches Some(w) && w.0 == lead + spell_name(n).len()
                && w.1.value == n
            &&& !crate::text::is_blank(rest[lead])
            &&& rest[lead] != '!'
            &&& rest[lead] != '#'
        }),
{
    let nm = spell_name(n);
    let named = nm + items;
    let rest = gap(first) + nm + items;
    let lead = gap(first).len() as int;
    lemma_name_reads_back(n, items);
    assert(named[0] == nm[0]);
    assert(rest.skip(lead) =~= named);
    assert(rest[lead] == nm[0]);
    if first {
        assert(rest =~= named);
        lemma_no_blank(rest, 0);
    } else {
        assert(rest[0] == ' ');
        lemma_run_to(rest, 0, 1, CharClass::Blank);
    }
    crate::locality::lemma_assignment_moves(rest, lead, 0);
    lemma_word_moves(rest, lead, 0);
}

/// A command is what the grammar reads of its parts, one after the other.
proof fn lemma_command_of_parts(
    s: Seq<char>,
    c: CommandView,
    b: int,
    cpos: int,
    d: int,
    e: int,
)
    requires
        run_end(s, 0, CharClass::Blank) == 0,
        assignments_from(s, 0) == (b, c.assignments),
        match c.name {
            Some(n) => word_at(s, b) matches Some(w) && w.0 == cpos && w.1.value == n,
            None => word_at(s, b) is None && cpos == b && c.assignments.len() > 0,
        },
        items_from(s, cpos) == (d, c.args, c.redirects),
        run_end(s, d, CharClass::Blank) == e,
    ensures
        command_at(s, 0) == Some((e, c)),
{
    reveal(command_at);
}

/// Joining is associative.
proof fn lemma_join3(x: Seq<char>, y: Seq<char>, z: Seq<char>)
    ensures
        (x + y) + z == x + (y + z),
{
    assert((x + y) + z =~= x + (y + z));
}

/// Behind the first of two joined texts stands the second.
proof fn lemma_skip_first(x: Seq<char>, y: Seq<char>)
    ensures
        (x + y).skip(x.len() as int) == y,
        (x + y).len() == x.len() + y.len(),
        x.len() > 0 ==> (x + y)[0] == x[0],
{
    assert((x + y).skip(x.len() as int) =~= y);
}

/// The text of a command and what follows it, as the name and what stands
/// behind it, and as the items and what stands behind them.
proof fn lemma_command_text(c: CommandView, post: Seq<char>)
    ensures
        ({
            let sa = spell_assignments(c.assignments);
            let gn = spell_opt_name(c.name, c.assignments.len() == 0);
            let items = spell_redirects(c.redirects) + spell_args(c.args) + post;
            let s = spell_command(c) + post;
            &&& s == sa + (gn + items)
            &&& s == (sa + gn) + items
            &&& s.skip(sa.len() as int) == gn + items
            &&& s.skip((sa.len() + gn.len()) as int) == items
            &&& s.skip(spell_command(c).len() as int) == post
            &&& spell_command(c).len() == sa.len() + gn.len() + spell_redirects(c.redirects).len()
                + spell_args(c.args).len()
        }),
{
    reveal(spell_command);
    let sa = spell_assignments(c.assignments);
    let gn = spell_opt_name(c.name, c.assignments.len() == 0);
    let sr = spell_redirects(c.redirects);
    let sg = spell_args(c.args);
    let items = sr + sg + post;
    lemma_join3(sa + gn, sr, sg);
    lemma_join3(sa + gn, sr + sg, post);
    lemma_join3(sa, gn, items);
    lemma_skip_first(sa, gn + items);
    lemma_skip_first(sa + gn, items);
    lemma_skip_first(spell_command(c), post);
}

/// A command that starts with its name reads back as itself.
#[verifier::spinoff_prover]
proof fn lemma_name_first(c: CommandView, post: Seq<char>)
    requires
        wf_command(c),
        c.name is Some,
        c.assignments.len() == 0,
        ends_command(post),
    ensures
        command_at(spell_command(c) + post, 0) == Some(
            (spell_command(c).len() + run_end(post, 0, CharClass::Blank), c),
        ),
        spell_command(c).len() > 0,
        !crate::text::is_blank(spell_command(c)[0]),
        spell_command(c)[0] != '!',
        spell_command(c)[0] != '#',
{
    reveal(spell_command);
    let n = c.name->0;
    let nm = spell_name(n);
    let items = spell_redirects(c.redirects) + spell_args(c.args) + post;
    let s = spell_command(c) + post;
    let cpos: int = nm.len() as int;
    let d: int = spell_command(c).len() as int;
    let e: int = d + run_end(post, 0, CharClass::Blank);
    lemma_items_read_back(c.redirects, c.args, post, 0);
    lemma_name_reads_back(n, items);
    lemma_command_text(c, post);
    assert(c.assignments =~= Seq::<(Seq<char>, Seq<char>)>::empty());
    assert(spell_assignments(c.assignments) =~= Seq::<char>::empty());
    assert(spell_opt_name(c.name, true) =~= nm);
    assert(s =~= nm + items);
    lemma_skip_first(nm, items);
    lemma_skip_first(spell_command(c), post);
    lemma_no_blank(s, 0);
    lemma_assignments_read_back(c.assignments, s);
    assert(spell_assignments(c.assignments) + s =~= s);
    lemma_items_move(s, cpos, 0);
    lemma_run_moves(s, d, 0, CharClass::Blank);
    lemma_command_of_parts(s, c, 0, cpos, d, e);
}

/// A command with assignments before its name reads back as itself.
#[verifier::spinoff_prover]
proof fn lemma_name_after(c: CommandView, post: Seq<char>)
    requires
        wf_command(c),
        c.name is Some,
        c.assignments.len() > 0,
        ends_command(post),
    ensures
        command_at(spell_command(c) + post, 0) == Some(
            (spell_command(c).len() + run_end(post, 0, CharClass::Blank), c),
        ),
        spell_command(c).len() > 0,
        crate::text::is_ident_start(spell_command(c)[0]),
{
    reveal(spell_command);
    let n = c.name->0;
    let sa = spell_assignments(c.assignments);
    let nm = spell_name(n);
    let gn = spell_opt_name(c.name, false);
    let items = spell_redirects(c.redirects) + spell_args(c.args) + post;
    let rest = gn + items;
    let s = spell_command(c) + post;
    let at: int = sa.len() as int;
    let cpos: int = at + 1 + nm.len() as int;
    let d: int = spell_command(c).len() as int;
    let e: int = d + run_end(post, 0, CharClass::Blank);
    lemma_items_read_back(c.redirects, c.args, post, 0);
    lemma_name_part(n, false, items);
    lemma_command_text(c, post);
    assert(gn == gap(false) + nm);
    lemma_join3(gap(false), nm, items);
    assert(rest == gap(false) + nm + items);
    lemma_assignments_read_back(c.assignments, rest);
    lemma_skip_first(sa, rest);
    lemma_skip_first(spell_command(c), post);
    lemma_no_blank(s, 0);
    lemma_word_moves(s, at, 1);
    lemma_items_move(s, cpos, 0);
    lemma_run_moves(s, d, 0, CharClass::Blank);
    lemma_command_of_parts(s, c, at + 1, cpos, d, e);
}

/// A command without a name, with a redirection, reads back as itself.
#[verifier::spinoff_prover]
proof fn lemma_redirected_assignments(c: CommandView, post: Seq<char>)
    requires
        wf_command(c),
        c.name is None,
        c.redirects.len() > 0,
        ends_command(post),
    ensures
        command_at(spell_command(c) + post, 0) == Some(
            (spell_command(c).len() + run_end(post, 0, CharClass::Blank), c),
        ),
        spell_command(c).len() > 0,
        crate::text::is_ident_start(spell_command(c)[0]),
{
    reveal(assignment_at);
    reveal(word_at);
    reveal(spell_command);
    let sa = spell_assignments(c.assignments);
    let sg = spell_args(c.args);
    let rest = spell_redirects(c.redirects) + sg + post;
    let s = spell_command(c) + post;
    let first = spell_redirect(c.redirects[0]);
    let behind = spell_redirects(c.redirects.drop_first()) + sg + post;
    let at: int = sa.len() as int;
    let d: int = spell_command(c).len() as int;
    let e: int = d + run_end(post, 0, CharClass::Blank);
    lemma_items_read_back(c.redirects, c.args, post, 1);
    lemma_redirect_reads_back(c.redirects[0], behind, 0);
    lemma_join3(first, spell_redirects(c.redirects.drop_first()), sg);
    lemma_join3(first, spell_redirects(c.redirects.drop_first()) + sg, post);
    assert(rest == first + behind);
    lemma_skip_first(first, behind);
    assert(rest[1] == first[1]);
    lemma_run_to(rest, 0, 1, CharClass::Blank);
    assert(assignment_at(rest, 1) is None);
    assert(word_at(rest, 1) is None);
    assert(ends_word(rest));
    lemma_assignments_read_back(c.assignments, rest);
    lemma_command_text(c, post);
    assert(spell_opt_name(c.name, false) =~= Seq::<char>::empty());
    assert(spell_opt_name(c.name, false) + rest =~= rest);
    lemma_skip_first(sa, rest);
    lemma_skip_first(spell_command(c), post);
    lemma_no_blank(s, 0);
    lemma_word_moves(s, at, 1);
    lemma_items_move(s, at, 1);
    lemma_run_moves(s, d, 0, CharClass::Blank);
    lemma_command_of_parts(s, c, at + 1, at + 1, d, e);
}

/// A command of assignments and nothing else reads back as itself.
#[verifier::spinoff_prover]
proof fn lemma_bare_assignments(c: CommandView, post: Seq<char>)
    requires
        wf_command(c),
        c.name is None,
        c.redirects.len() == 0,
        ends_command(post),
    ensures
        command_at(spell_command(c) + post, 0) == Some(
            (spell_command(c).len() + run_end(post, 0, CharClass::Blank), c),
        ),
        spell_command(c).len() > 0,
        crate::text::is_ident_start(spell_command(c)[0]),
{
    reveal(spell_command);
    let sa = spell_assignments(c.assignments);
    let s = spell_command(c) + post;
    let pb = run_end(post, 0, CharClass::Blank);
    let at: int = sa.len() as int;
    lemma_ends_command(post);
    lemma_no_item(post);
    lemma_no_blank(post, pb);
    lemma_assignments_read_back(c.assignments, post);
    assert(c.args =~= Seq::<ArgView>::empty());
    assert(c.redirects =~= Seq::<RedirectView>::empty());
    assert(spell_command(c) =~= sa);
    lemma_skip_first(sa, post);
    lemma_no_blank(s, 0);
    lemma_word_moves(s, at, pb);
    lemma_items_move(s, at, pb);
    lemma_run_moves(s, at, pb, CharClass::Blank);
    lemma_command_of_parts(s, c, at + pb, at + pb, at + pb, at + pb);
}

/// A command reads back as itself, up to behind the blanks that follow it.
pub proof fn lemma_command_reads_back(c: CommandView, post: Seq<char>)
    requires
        wf_command(c),
        ends_command(post),
    ensures
        command_at(spell_command(c) + post, 0) == Some(
            (spell_command(c).len() + run_end(post, 0, CharClass::Blank), c),
        ),
        spell_command(c).len() > 0,
        !crate::text::is_blank(spell_command(c)[0]),
        spell_command(c)[0] != '!',
        spell_command(c)[0] != '#',
{
    if c.name is Some {
        if c.assignments.len() == 0 {
            lemma_name_first(c, post);
        } else {
            lemma_name_after(c, post);
        }
    } else if c.redirects.len() > 0 {
        lemma_redirected_assignments(c, post);
    } else {
        lemma_bare_assignments(c, post);
    }
}

/// Whether a pipeline can end where `post` starts: after blanks, `post`
/// ends or goes on with `;`, `&` or `||`.
pub open spec fn ends_pipeline(post: Seq<char>) -> bool {
    let b = run_end(post, 0, CharClass::Blank);
    b >= post.len() || post[b] == ';' || post[b] == '&' || (post[b] == '|' && b + 1 < post.len()
        && post[b + 1] == '|')
}

/// Where a pipeline can end, a command can end, and no `|` joins another.
proof fn lemma_ends_pipeline(post: Seq<char>)
    requires
        ends_pipeline(post),
    ensures
        ends_command(post),
        0 <= run_end(post, 0, CharClass::Blank) <= post.len(),
        !pipe_at(post, run_end(post, 0, CharClass::Blank)),
{
    lemma_run_end(post, 0, CharClass::Blank);
}

/// A command behind a `|` as it is written.
pub open spec fn spell_pipe(c: CommandView) -> Seq<char> {
    seq![' ', '|', ' '] + spell_command(c)
}

/// The commands behind the first of a pipeline as they are written.
pub open spec fn spell_piped(cs: Seq<CommandView>) -> Seq<char>
    decreases cs.len(),
{
    if cs.len() == 0 {
        Seq::empty()
    } else {
        spell_pipe(cs[0]) + spell_piped(cs.drop_first())
    }
}

/// The sign of negation as it is written before a negated pipeline.
pub open spec fn spell_bang(negated: bool) -> Seq<char> {
    if negated {
        seq!['!', ' ']
    } else {
        Seq::empty()
    }
}

/// A pipeline as it is written.
#[verifier::opaque]
pub open spec fn spell_pipeline(p: PipelineView) -> Seq<char> {
    spell_bang(p.negated) + spell_command(p.commands[0]) + spell_piped(p.commands.drop_first())
}

/// Whether each of the commands is one that the grammar can read.
pub open spec fn wf_commands(cs: Seq<CommandView>) -> bool {
    forall|i: int| 0 <= i < cs.len() ==> wf_command(#[trigger] cs[i])
}

/// Whether a pipeline is one that the grammar can read: it holds a
/// command, and each of its commands is one that the grammar can read.
pub open spec fn wf_pipeline(p: PipelineView) -> bool {
    p.commands.len() > 0 && wf_commands(p.commands)
}

/// A blank before a command does not change what is read.
proof fn lemma_command_behind_blank(s: Seq<char>, i: int)
    requires
        0 <= i < s.len(),
        s[i] == ' ',
    ensures
        command_at(s, i) == command_at(s, i + 1),
{
    reveal(command_at);
}

/// A command behind `|` reads back as itself.
#[verifier::spinoff_prover]
proof fn lemma_pipe_reads_back(c: CommandView, t3: Seq<char>)
    requires
        wf_command(c),
        ends_command(t3),
    ensures
        ({
            let t = spell_pipe(c) + t3;
            &&& run_end(t, 0, CharClass::Blank) == 1
            &&& pipe_at(t, 1)
            &&& ends_command(t)
            &&& command_at(t, 2) == Some(
                (spell_pipe(c).len() + run_end(t3, 0, CharClass::Blank), c),
            )
            &&& t.skip(spell_pipe(c).len() as int) == t3
        }),
{
    let bar = seq![' ', '|', ' '];
    let cmd = spell_command(c);
    let t = spell_pipe(c) + t3;
    lemma_command_reads_back(c, t3);
    lemma_join3(bar, cmd, t3);
    lemma_skip_first(bar, cmd + t3);
    lemma_skip_first(spell_pipe(c), t3);
    assert(t[0] == ' ' && t[1] == '|' && t[2] == ' ') by {
        assert(spell_pipe(c)[0] == ' ' && spell_pipe(c)[1] == '|' && spell_pipe(c)[2] == ' ');
    }
    lemma_run_to(t, 0, 1, CharClass::Blank);
    lemma_command_behind_blank(t, 2);
    lemma_command_moves(t, 3, 0);
}

/// The commands behind the first of a pipeline read back as themselves.
#[verifier::spinoff_prover]
proof fn lemma_piped_reads_back(cs: Seq<CommandView>, post: Seq<char>)
    requires
        wf_commands(cs),
        ends_pipeline(post),
    ensures
        ({
            let t = spell_piped(cs) + post;
            let b = run_end(t, 0, CharClass::Blank);
            &&& 0 <= b <= t.len()
            &&& ends_command(t)
            &&& piped_from(t, b) == Some(
                (spell_piped(cs).len() + run_end(post, 0, CharClass::Blank), cs),
            )
        }),
    decreases cs.len(),
{
    reveal(piped_from);
    let t = spell_piped(cs) + post;
    lemma_ends_pipeline(post);
    if cs.len() == 0 {
        assert(t =~= post);
        assert(cs =~= Seq::<CommandView>::empty());
    } else {
        let c = cs[0];
        let tail = cs.drop_first();
        let first = spell_pipe(c);
        let t3 = spell_piped(tail) + post;
        assert(wf_commands(tail)) by {
            assert forall|i: int| 0 <= i < tail.len() implies wf_command(#[trigger] tail[i]) by {
                assert(tail[i] == cs[i + 1]);
            }
        }
        lemma_piped_reads_back(tail, post);
        lemma_join3(first, spell_piped(tail), post);
        lemma_pipe_reads_back(c, t3);
        let rb3 = run_end(t3, 0, CharClass::Blank);
        lemma_piped_moves(t, first.len() as int, rb3);
        assert(seq![c] + tail =~= cs);
    }
}

/// A pipeline is what the grammar reads of its parts.
proof fn lemma_pipeline_of_parts(
    s: Seq<char>,
    p: PipelineView,
    start: int,
    j: int,
    end: int,
)
    requires
        p.commands.len() > 0,
        run_end(s, 0, CharClass::Blank) == 0,
        bang_at(s, 0) == p.negated,
        start == if p.negated {
            1int
        } else {
            0int
        },
        command_at(s, start) == Some((j, p.commands[0])),
        piped_from(s, j) == Some((end, p.commands.drop_first())),
    ensures
        pipeline_at(s, 0) == Some((end, unmarked(p))),
{
    reveal(pipeline_at);
    assert(seq![p.commands[0]] + p.commands.drop_first() =~= p.commands);
}

/// A pipeline reads back as itself, not marked as a background pipeline,
/// up to behind the blanks that follow it.
#[verifier::spinoff_prover]
pub proof fn lemma_pipeline_reads_back(p: PipelineView, post: Seq<char>)
    requires
        wf_pipeline(p),
        ends_pipeline(post),
    ensures
        pipeline_at(spell_pipeline(p) + post, 0) == Some(
            (spell_pipeline(p).len() + run_end(post, 0, CharClass::Blank), unmarked(p)),
        ),
        spell_pipeline(p).len() > 0,
        !crate::text::is_blank(spell_pipeline(p)[0]),
        spell_pipeline(p)[0] != '#',
{
    reveal(spell_pipeline);
    let c = p.commands[0];
    let tail = p.commands.drop_first();
    let bang = spell_bang(p.negated);
    let cmd = spell_command(c);
    let t2 = spell_piped(tail) + post;
    let body = cmd + t2;
    let s = spell_pipeline(p) + post;
    let off: int = bang.len() as int;
    assert(wf_commands(tail)) by {
        assert forall|i: int| 0 <= i < tail.len() implies wf_command(#[trigger] tail[i]) by {
            assert(tail[i] == p.commands[i + 1]);
        }
    }
    lemma_piped_reads_back(tail, post);
    lemma_command_reads_back(c, t2);
    let rb2 = run_end(t2, 0, CharClass::Blank);
    lemma_join3(bang + cmd, spell_piped(tail), post);
    lemma_join3(bang, cmd, t2);
    lemma_skip_first(bang, body);
    lemma_skip_first(bang + cmd, t2);
    lemma_skip_first(cmd, t2);
    lemma_skip_first(spell_pipeline(p), post);
    assert(spell_pipeline(p)[0] == s[0]);
    let j: int = off + cmd.len() as int + rb2;
    if p.negated {
        assert(bang[0] == '!' && bang[1] == ' ');
        assert(s[0] == '!' && s[1] == ' ');
        lemma_no_blank(s, 0);
        lemma_command_behind_blank(s, 1);
        lemma_command_moves(s, 2, 0);
    } else {
        assert(bang =~= Seq::<char>::empty());
        assert(s =~= body);
        assert(s[0] == cmd[0]);
        lemma_no_blank(s, 0);
    }
    lemma_piped_moves(s, off + cmd.len() as int, rb2);
    lemma_pipeline_of_parts(
        s,
        p,
        if p.negated {
            1
        } else {
            0
        },
        j,
        spell_pipeline(p).len() as int + run_end(post, 0, CharClass::Blank),
    );
}

/// A connector as it is written.
pub open spec fn spell_connector(c: Connector) -> Seq<char> {
    match c {
        Connector::And => seq!['&', '&'],
        Connector::Or => seq!['|', '|'],
        Connector::Semi => seq![';'],
        Connector::Amp => seq!['&'],
    }
}

/// What is written behind the first pipeline of a list: its connector
/// with a blank before it, and the rest of the list with a blank before it.
pub open spec fn spell_behind(items: Seq<(PipelineView, Option<Connector>)>) -> Seq<char>
    decreases items.len(), 0int,
{
    if items.len() == 0 {
        Seq::empty()
    } else {
        match items[0].1 {
            None => Seq::empty(),
            Some(c) => seq![' '] + spell_connector(c) + (if items.len() > 1 {
                seq![' '] + spell_items(items.drop_first())
            } else {
                Seq::empty()
            }),
        }
    }
}

/// A list as it is written: each pipeline, its connector behind it.
pub open spec fn spell_items(items: Seq<(PipelineView, Option<Connector>)>) -> Seq<char>
    decreases items.len(), 1int,
{
    if items.len() == 0 {
        Seq::empty()
    } else {
        spell_pipeline(items[0].0) + spell_behind(items)
    }
}

/// Whether a list is one that the grammar can read: it holds a pipeline;
/// each pipeline is one that the grammar can read and is not marked as a
/// background pipeline; a connector stands behind each but the last; and
/// behind the last stands none, or one that may end a list.
pub open spec fn wf_items(items: Seq<(PipelineView, Option<Connector>)>) -> bool {
    &&& items.len() > 0
    &&& forall|k: int|
        0 <= k < items.len() ==> {
            &&& wf_pipeline((#[trigger] items[k]).0)
            &&& !items[k].0.background
            &&& k + 1 < items.len() ==> items[k].1 is Some
            &&& k + 1 == items.len() ==> (items[k].1 matches Some(c) ==> ends_list(c))
        }
}

/// A connector reads back as itself.
proof fn lemma_connector_reads_back(c: Connector, more: Seq<char>)
    requires
        more.len() > 0 ==> more[0] == ' ',
    ensures
        ({
            let t = seq![' '] + spell_connector(c) + more;
            &&& run_end(t, 0, CharClass::Blank) == 1
            &&& ends_pipeline(t)
            &&& connector_at(t, 1) == Some((1 + spell_connector(c).len() as int, c))
            &&& t.skip(1 + spell_connector(c).len() as int) == more
        }),
{
    let conn = spell_connector(c);
    let t = seq![' '] + conn + more;
    lemma_skip_first(seq![' '] + conn, more);
    assert(t[0] == ' ');
    assert(t[1] == conn[0]);
    if conn.len() > 1 {
        assert(t[2] == conn[1]);
    } else if more.len() > 0 {
        assert(t[2] == more[0]);
    }
    lemma_run_to(t, 0, 1, CharClass::Blank);
    lemma_no_blank(t, 1);
}

/// A list is read the same from a blank as from behind it.
proof fn lemma_list_behind_blank(s: Seq<char>, i: int)
    requires
        0 <= i < s.len(),
        s[i] == ' ',
    ensures
        list_from(s, i) == list_from(s, i + 1),
{
    reveal(list_from);
    reveal(pipeline_at);
    assert(pipeline_at(s, i) == pipeline_at(s, i + 1));
}

/// A list of one pipeline is what the grammar reads of it.
proof fn lemma_list_of_one(
    s: Seq<char>,
    p: PipelineView,
    c: Option<Connector>,
    j: int,
    k: int,
)
    requires
        0 <= j <= s.len(),
        pipeline_at(s, 0) == Some((j, p)),
        match c {
            None => run_end(s, j, CharClass::Blank) >= s.len(),
            Some(x) => {
                &&& run_end(s, j, CharClass::Blank) < s.len()
                &&& connector_at(s, j) == Some((k, x))
                &&& ends_list(x)
                &&& run_end(s, k, CharClass::Blank) >= s.len()
            },
        },
    ensures
        list_from(s, 0) == Some(seq![(p, c)]),
{
    reveal(list_from);
}

/// A list of several pipelines is what the grammar reads of the first and
/// of the rest.
proof fn lemma_list_of_more(
    s: Seq<char>,
    p: PipelineView,
    c: Connector,
    j: int,
    k: int,
    rest: Seq<(PipelineView, Option<Connector>)>,
)
    requires
        0 <= j <= s.len(),
        pipeline_at(s, 0) == Some((j, p)),
        run_end(s, j, CharClass::Blank) < s.len(),
        connector_at(s, j) == Some((k, c)),
        run_end(s, k, CharClass::Blank) < s.len(),
        list_from(s, k) == Some(rest),
    ensures
        list_from(s, 0) == Some(seq![(p, Some(c))] + rest),
{
    reveal(list_from);
}

/// A list reads back as itself.
#[verifier::spinoff_prover]
pub proof fn lemma_list_reads_back(items: Seq<(PipelineView, Option<Connector>)>)
    requires
        wf_items(items),
    ensures
        list_from(spell_items(items), 0) == Some(items),
        spell_items(items).len() > 0,
        !crate::text::is_blank(spell_items(items)[0]),
        spell_items(items)[0] != '#',
    decreases items.len(),
{
    let p = items[0].0;
    let pipe = spell_pipeline(p);
    let behind = spell_behind(items);
    let s = spell_items(items);
    let at: int = pipe.len() as int;
    assert(wf_pipeline(p));
    match items[0].1 {
        None => {
            assert(behind =~= Seq::<char>::empty());
            assert(ends_pipeline(behind));
            lemma_pipeline_reads_back(p, behind);
            lemma_skip_first(pipe, behind);
            assert(unmarked(p) == p);
            lemma_list_of_one(s, p, None, at, at);
            assert(items =~= seq![(p, None::<Connector>)]);
        },
        Some(c) => {
            let conn = spell_connector(c);
            let tail = items.drop_first();
            let more: Seq<char> = if items.len() > 1 {
                seq![' '] + spell_items(tail)
            } else {
                Seq::empty()
            };
            let k: int = at + 1 + conn.len() as int;
            assert(behind == seq![' '] + conn + more);
            lemma_connector_reads_back(c, more);
            lemma_pipeline_reads_back(p, behind);
            lemma_skip_first(pipe, behind);
            assert(unmarked(p) == p);
            lemma_run_moves(s, at, 1, CharClass::Blank);
            lemma_no_blank(behind, 1);
            lemma_connector_moves(s, at, 1);
            lemma_run_moves(s, at, 1 + conn.len() as int, CharClass::Blank);
            if items.len() == 1 {
                assert(more =~= Seq::<char>::empty());
                lemma_list_of_one(s, p, Some(c), at + 1, k);
                assert(items =~= seq![(p, Some(c))]);
            } else {
                assert(wf_items(tail)) by {
                    assert forall|x: int| 0 <= x < tail.len() implies {
                        &&& wf_pipeline((#[trigger] tail[x]).0)
                        &&& !tail[x].0.background
                        &&& x + 1 < tail.len() ==> tail[x].1 is Some
                        &&& x + 1 == tail.len() ==> (tail[x].1 matches Some(c) ==> ends_list(c))
                    } by {
                        assert(tail[x] == items[x + 1]);
                    }
                }
                lemma_list_reads_back(tail);
                let next = spell_items(tail);
                lemma_skip_first(seq![' '], next);
                assert(more[0] == ' ');
                assert(more[1] == next[0]);
                lemma_run_to(more, 0, 1, CharClass::Blank);
                lemma_run_moves(behind, 1 + conn.len() as int, 0, CharClass::Blank);
                lemma_list_moves(s, k, 0);
                lemma_list_moves(s, k, 1);
                lemma_list_behind_blank(more, 0);
                lemma_list_moves(more, 1, 0);
                assert(s.skip(k) == more) by {
                    assert(behind.skip(1 + conn.len() as int) == more);
                    assert(s.skip(at) == behind);
                    assert(s.skip(k) =~= behind.skip(1 + conn.len() as int));
                }
                lemma_list_of_more(s, p, c, at + 1, k, tail);
                assert(seq![(p, Some(c))] + tail =~= items);
            }
        },
    }
}

/// The pipelines of a command list as the grammar lists them: each not
/// marked as a background pipeline, with the connector written behind it,
/// which for the last is `&` where it is a background pipeline.
pub open spec fn items_of(entries: Seq<EntryView>) -> Seq<(PipelineView, Option<Connector>)> {
    Seq::new(
        entries.len(),
        |k: int|
            (
                unmarked(entries[k].pipeline),
                if k + 1 < entries.len() {
                    entries[k + 1].connector
                } else if entries[k].pipeline.background {
                    Some(Connector::Amp)
                } else {
                    None
                },
            ),
    )
}

/// Whether a command list is one that the grammar can read: it holds a
/// pipeline; each pipeline is one that the grammar can read; the first
/// entry has no connector and every other has one; and a pipeline before
/// another is a background pipeline exactly when `&` is the connector of
/// the other.
pub open spec fn wf_entries(entries: Seq<EntryView>) -> bool {
    &&& entries.len() > 0
    &&& entries[0].connector is None
    &&& forall|k: int|
        0 <= k < entries.len() ==> {
            &&& wf_pipeline((#[trigger] entries[k]).pipeline)
            &&& k > 0 ==> entries[k].connector is Some
            &&& k + 1 < entries.len() ==> (entries[k].pipeline.background <==> entries[k
                + 1].connector == Some(Connector::Amp))
        }
}

/// A command list as it is written, before `$` is doubled.
pub open spec fn spell_list(entries: Seq<EntryView>) -> Seq<char> {
    spell_items(items_of(entries))
}

/// A command list that the grammar can read is the list of its pipelines
/// as the grammar lists them, and these make a list that it can read.
pub proof fn lemma_entries_as_items(entries: Seq<EntryView>)
    requires
        wf_entries(entries),
    ensures
        wf_items(items_of(entries)),
        entries_of(items_of(entries)) == entries,
{
    let items = items_of(entries);
    assert forall|k: int| 0 <= k < items.len() implies {
        &&& wf_pipeline((#[trigger] items[k]).0)
        &&& !items[k].0.background
        &&& k + 1 < items.len() ==> items[k].1 is Some
        &&& k + 1 == items.len() ==> (items[k].1 matches Some(c) ==> ends_list(c))
    } by {
        assert(wf_pipeline(entries[k].pipeline));
        if k + 1 < items.len() {
            assert(entries[k + 1].connector is Some);
        }
    }
    assert(entries_of(items) =~= entries) by {
        assert forall|k: int| 0 <= k < entries.len() implies entries_of(items)[k] == entries[k] by {
            assert(wf_pipeline(entries[k].pipeline));
            if k > 0 {
                assert(items[k - 1].1 == entries[k].connector);
            }
        }
    }
}

/// A list that the grammar can read makes a command list that it can read.
pub proof fn lemma_items_as_entries(items: Seq<(PipelineView, Option<Connector>)>)
    requires
        wf_items(items),
    ensures
        wf_entries(entries_of(items)),
{
    let entries = entries_of(items);
    assert forall|k: int| 0 <= k < entries.len() implies {
        &&& wf_pipeline((#[trigger] entries[k]).pipeline)
        &&& k > 0 ==> entries[k].connector is Some
        &&& k + 1 < entries.len() ==> (entries[k].pipeline.background <==> entries[k
            + 1].connector == Some(Connector::Amp))
    } by {
        assert(wf_pipeline(items[k].0));
        if k > 0 {
            assert(items[k - 1].1 is Some);
        }
    }
}

/// `t` with every `$` written twice.
pub open spec fn escape(t: Seq<char>) -> Seq<char>
    decreases t.len(),
{
    if t.len() == 0 {
        Seq::empty()
    } else if t[0] == '$' {
        seq!['$', '$'] + escape(t.drop_first())
    } else {
        seq![t[0]] + escape(t.drop_first())
    }
}

/// Expansion gives the same from a position on as in the input from that
/// position on.
pub proof fn lemma_expand_moves(s: Seq<char>, i: int, j: int, vars: Map<Seq<char>, Seq<char>>)
    requires
        0 <= i,
        0 <= j,
        i + j <= s.len(),
    ensures
        expand_from(s, i + j, vars) == expand_from(s.skip(i), j, vars),
    decreases s.len() - (i + j),
{
    let t = s.skip(i);
    if i + j < s.len() {
        assert(t[j] == s[i + j]);
        if i + j + 1 < s.len() {
            assert(t[j + 1] == s[i + j + 1]);
        }
        if s[i + j] != '$' {
            lemma_expand_moves(s, i, j + 1, vars);
        } else if i + j + 1 < s.len() && s[i + j + 1] == '$' {
            lemma_expand_moves(s, i, j + 2, vars);
        } else if i + j + 1 < s.len() && s[i + j + 1] == '{' {
            let k = CharClass::Until('}');
            lemma_run_moves(s, i, j + 2, k);
            lemma_run_end(t, j + 2, k);
            let e = run_end(t, j + 2, k);
            assert(s.subrange(i + j + 2, i + e) =~= t.subrange(j + 2, e));
            if e < t.len() {
                lemma_expand_moves(s, i, e + 1, vars);
            } else {
                lemma_expand_moves(s, i, e, vars);
            }
        } else if i + j + 1 < s.len() && crate::text::is_ident_start(s[i + j + 1]) {
            let k = CharClass::Ident;
            lemma_run_moves(s, i, j + 1, k);
            lemma_run_end(t, j + 1, k);
            let e = run_end(t, j + 1, k);
            assert(s.subrange(i + j + 1, i + e) =~= t.subrange(j + 1, e));
            lemma_expand_moves(s, i, e, vars);
        } else {
            lemma_expand_moves(s, i, j + 1, vars);
        }
    }
}

/// Variable expansion undoes the doubling of `$`, whatever the variables.
pub proof fn lemma_escape_expands(t: Seq<char>, vars: Map<Seq<char>, Seq<char>>)
    ensures
        spec_expand(escape(t), vars) == t,
        escape(t).len() >= t.len(),
        t.len() > 0 ==> escape(t)[0] == t[0],
        t.len() > 0 ==> escape(t).last() == t.last(),
    decreases t.len(),
{
    let e = escape(t);
    if t.len() > 0 {
        let rest = t.drop_first();
        lemma_escape_expands(rest, vars);
        let head: Seq<char> = if t[0] == '$' {
            seq!['$', '$']
        } else {
            seq![t[0]]
        };
        assert(e == head + escape(rest));
        lemma_skip_first(head, escape(rest));
        lemma_expand_moves(e, head.len() as int, 0, vars);
        assert(e[0] == head[0]);
        if t[0] == '$' {
            assert(e[1] == head[1]);
        }
        assert(seq![t[0]] + rest =~= t);
        if rest.len() > 0 {
            assert(e.last() == escape(rest).last());
            assert(rest.last() == t.last());
        } else {
            assert(escape(rest) =~= Seq::<char>::empty());
            assert(e =~= head);
        }
    }
}

/// Trimming leaves a text as it is that neither starts nor ends with
/// whitespace.
pub proof fn lemma_trim_keeps(t: Seq<char>)
    requires
        t.len() > 0,
        !is_space(t[0]),
        !is_space(t.last()),
    ensures
        trimmed(t) == t,
{
    assert(skip_space(t, 0) == 0);
    assert(skip_space_back(t, 0, t.len() as int) == t.len());
    assert(t.subrange(0, t.len() as int) =~= t);
}

/// Whether a text starts and ends with something that is no whitespace.
pub open spec fn solid(t: Seq<char>) -> bool {
    t.len() > 0 && !is_space(t[0]) && !is_space(t.last())
}

/// The last of two joined texts ends their joining.
proof fn lemma_last_of_join(x: Seq<char>, y: Seq<char>)
    ensures
        y.len() > 0 ==> (x + y).last() == y.last(),
        y.len() == 0 ==> x + y == x,
        x.len() > 0 ==> (x + y)[0] == x[0],
        x.len() == 0 ==> x + y == y,
{
    if y.len() == 0 {
        assert(x + y =~= x);
    }
    if x.len() == 0 {
        assert(x + y =~= y);
    }
}

/// The pieces of a word end with a quote.
proof fn lemma_pieces_end(v: Seq<char>)
    requires
        v.len() > 0,
    ensures
        spell_pieces(v).len() > 0,
        spell_pieces(v).last() == '"' || spell_pieces(v).last() == '\'',
    decreases v.len(),
{
    let q = quote_for(v);
    let k = CharClass::Until(q);
    lemma_run_end(v, 0, k);
    crate::text::lemma_run_end_advances(v, 0, k);
    let n = run_end(v, 0, k);
    let rest = v.subrange(n, v.len() as int);
    let piece = seq![q] + v.subrange(0, n) + seq![q];
    assert(piece.last() == q);
    lemma_last_of_join(piece, spell_pieces(rest));
    if rest.len() > 0 {
        lemma_pieces_end(rest);
    } else {
        assert(spell_pieces(rest) =~= Seq::<char>::empty());
    }
}

/// A word written in quotes starts and ends with a quote.
proof fn lemma_mixed_solid(v: Seq<char>)
    ensures
        solid(spell_mixed(v)),
        solid(spell_quoted(v)),
{
    let open = seq!['"', '"'];
    if v.len() > 0 {
        lemma_pieces_end(v);
        lemma_last_of_join(open, spell_pieces(v));
    } else {
        assert(spell_mixed(v).last() == '"');
    }
    assert(spell_mixed(v)[0] == '"');
    let q = if v.contains('"') {
        '\''
    } else {
        '"'
    };
    assert(spell_quoted(v)[0] == q);
    assert(spell_quoted(v).last() == q);
}

/// Every word as it is written starts and ends with something that is no
/// whitespace.
proof fn lemma_words_solid(v: Seq<char>, quoted: bool)
    ensures
        solid(spell_arg(ArgView { value: v, quoted })),
        solid(spell_name(v)),
        solid(spell_file(v)),
        v.len() > 0 ==> solid(spell_value(v)),
{
    lemma_mixed_solid(v);
}

/// An assignment as it is written starts and ends with something that is
/// no whitespace.
proof fn lemma_assignment_solid(pair: (Seq<char>, Seq<char>))
    requires
        is_identifier(pair.0),
    ensures
        solid(spell_assignment(pair)),
{
    let head = pair.0 + seq!['='];
    assert(head[0] == pair.0[0]);
    assert(head.last() == '=');
    lemma_words_solid(pair.1, false);
    lemma_last_of_join(head, spell_value(pair.1));
    if pair.1.len() == 0 {
        assert(spell_value(pair.1) =~= Seq::<char>::empty());
    }
}

/// Assignments as they are written start and end with something that is
/// no whitespace.
proof fn lemma_assignments_solid(pairs: Seq<(Seq<char>, Seq<char>)>)
    requires
        named_by_identifiers(pairs),
        pairs.len() > 0,
    ensures
        solid(spell_assignments(pairs)),
    decreases pairs.len(),
{
    lemma_assignment_solid(pairs[0]);
    if pairs.len() > 1 {
        let tail = pairs.drop_first();
        assert(named_by_identifiers(tail)) by {
            assert forall|i: int| 0 <= i < tail.len() implies is_identifier(
                #[trigger] tail[i].0,
            ) by {
                assert(tail[i] == pairs[i + 1]);
            }
        }
        lemma_assignments_solid(tail);
        let head = spell_assignment(pairs[0]) + seq![' '];
        assert(head[0] == spell_assignment(pairs[0])[0]);
        lemma_last_of_join(head, spell_assignments(tail));
    }
}

/// Redirections as they are written end with something that is no
/// whitespace.
proof fn lemma_redirects_end(rs: Seq<RedirectView>)
    requires
        rs.len() > 0,
    ensures
        spell_redirects(rs).len() > 0,
        !is_space(spell_redirects(rs).last()),
    decreases rs.len(),
{
    let r = rs[0];
    let head = seq![' '] + spell_op(r.kind) + seq![' '];
    lemma_words_solid(r.file, false);
    lemma_last_of_join(head, spell_file(r.file));
    lemma_last_of_join(spell_redirect(r), spell_redirects(rs.drop_first()));
    if rs.len() > 1 {
        lemma_redirects_end(rs.drop_first());
    } else {
        assert(spell_redirects(rs.drop_first()) =~= Seq::<char>::empty());
    }
}

/// Arguments as they are written end with something that is no whitespace.
proof fn lemma_args_end(args: Seq<ArgView>)
    requires
        args.len() > 0,
    ensures
        spell_args(args).len() > 0,
        !is_space(spell_args(args).last()),
    decreases args.len(),
{
    let a = args[0];
    lemma_words_solid(a.value, a.quoted);
    lemma_last_of_join(seq![' '], spell_arg(a));
    lemma_last_of_join(seq![' '] + spell_arg(a), spell_args(args.drop_first()));
    if args.len() > 1 {
        lemma_args_end(args.drop_first());
    } else {
        assert(spell_args(args.drop_first()) =~= Seq::<char>::empty());
    }
}

/// A command as it is written starts and ends with something that is no
/// whitespace.
proof fn lemma_command_solid(c: CommandView)
    requires
        wf_command(c),
    ensures
        solid(spell_command(c)),
{
    reveal(spell_command);
    let first = c.assignments.len() == 0;
    let sa = spell_assignments(c.assignments);
    let gn = spell_opt_name(c.name, first);
    let sr = spell_redirects(c.redirects);
    let sg = spell_args(c.args);
    if !first {
        lemma_assignments_solid(c.assignments);
    } else {
        assert(sa =~= Seq::<char>::empty());
    }
    match c.name {
        Some(n) => {
            lemma_words_solid(n, false);
            lemma_last_of_join(gap(first), spell_name(n));
        },
        None => {
            assert(gn =~= Seq::<char>::empty());
        },
    }
    if c.redirects.len() > 0 {
        lemma_redirects_end(c.redirects);
    } else {
        assert(sr =~= Seq::<char>::empty());
    }
    if c.args.len() > 0 {
        lemma_args_end(c.args);
    } else {
        assert(sg =~= Seq::<char>::empty());
    }
    lemma_last_of_join(sa, gn);
    lemma_last_of_join(sa + gn, sr);
    lemma_last_of_join(sa + gn + sr, sg);
}

/// The commands behind the first of a pipeline end, as they are written,
/// with something that is no whitespace.
proof fn lemma_piped_end(cs: Seq<CommandView>)
    requires
        wf_commands(cs),
        cs.len() > 0,
    ensures
        spell_piped(cs).len() > 0,
        !is_space(spell_piped(cs).last()),
    decreases cs.len(),
{
    let tail = cs.drop_first();
    lemma_command_solid(cs[0]);
    lemma_last_of_join(seq![' ', '|', ' '], spell_command(cs[0]));
    lemma_last_of_join(spell_pipe(cs[0]), spell_piped(tail));
    if cs.len() > 1 {
        assert(wf_commands(tail)) by {
            assert forall|i: int| 0 <= i < tail.len() implies wf_command(#[trigger] tail[i]) by {
                assert(tail[i] == cs[i + 1]);
            }
        }
        lemma_piped_end(tail);
    } else {
        assert(spell_piped(tail) =~= Seq::<char>::empty());
    }
}

/// A pipeline as it is written starts and ends with something that is no
/// whitespace.
proof fn lemma_pipeline_solid(p: PipelineView)
    requires
        wf_pipeline(p),
    ensures
        solid(spell_pipeline(p)),
{
    reveal(spell_pipeline);
    let tail = p.commands.drop_first();
    let bang = spell_bang(p.negated);
    let cmd = spell_command(p.commands[0]);
    lemma_command_solid(p.commands[0]);
    lemma_last_of_join(bang, cmd);
    lemma_last_of_join(bang + cmd, spell_piped(tail));
    if p.negated {
        assert(bang[0] == '!');
    }
    if tail.len() > 0 {
        assert(wf_commands(tail)) by {
            assert forall|i: int| 0 <= i < tail.len() implies wf_command(#[trigger] tail[i]) by {
                assert(tail[i] == p.commands[i + 1]);
            }
        }
        lemma_piped_end(tail);
    } else {
        assert(spell_piped(tail) =~= Seq::<char>::empty());
    }
}

/// A list as it is written starts and ends with something that is no
/// whitespace.
proof fn lemma_items_solid(items: Seq<(PipelineView, Option<Connector>)>)
    requires
        wf_items(items),
    ensures
        solid(spell_items(items)),
    decreases items.len(),
{
    let p = items[0].0;
    let pipe = spell_pipeline(p);
    let behind = spell_behind(items);
    assert(wf_pipeline(p));
    lemma_pipeline_solid(p);
    lemma_last_of_join(pipe, behind);
    match items[0].1 {
        None => {
            assert(behind =~= Seq::<char>::empty());
        },
        Some(c) => {
            let conn = spell_connector(c);
            let tail = items.drop_first();
            let head = seq![' '] + conn;
            assert(head.last() == conn.last());
            if items.len() > 1 {
                assert(wf_items(tail)) by {
                    assert forall|x: int| 0 <= x < tail.len() implies {
                        &&& wf_pipeline((#[trigger] tail[x]).0)
                        &&& !tail[x].0.background
                        &&& x + 1 < tail.len() ==> tail[x].1 is Some
                        &&& x + 1 == tail.len() ==> (tail[x].1 matches Some(c) ==> ends_list(c))
                    } by {
                        assert(tail[x] == items[x + 1]);
                    }
                }
                lemma_items_solid(tail);
                let more = seq![' '] + spell_items(tail);
                lemma_last_of_join(seq![' '], spell_items(tail));
                lemma_last_of_join(head, more);
            } else {
                lemma_last_of_join(head, Seq::<char>::empty());
            }
        },
    }
}

/// A command list as it is written on a line: with every `$` doubled.
pub open spec fn spell_line(entries: Seq<EntryView>) -> Seq<char> {
    escape(spell_list(entries))
}

/// A command list that the grammar can read, written on a line, is read
/// as itself, whatever the variables.
pub proof fn lemma_line_reads_back(entries: Seq<EntryView>, vars: Map<Seq<char>, Seq<char>>)
    requires
        wf_entries(entries),
    ensures
        spec_parse(spell_line(entries), vars) == LineView::Commands(entries),
{
    let items = items_of(entries);
    let t = spell_list(entries);
    let line = spell_line(entries);
    lemma_entries_as_items(entries);
    lemma_list_reads_back(items);
    lemma_items_solid(items);
    lemma_escape_expands(t, vars);
    lemma_trim_keeps(t);
    lemma_trim_keeps(line);
}

} // verus!
