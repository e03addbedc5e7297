//! Characters and strings: classification, conversion between `str` and
//! `Vec<char>`, trimming, and the lexicographic order by which names and
//! paths are listed.

use crate::ast::view_seq;
use vstd::prelude::*;
use vstd::relations::*;
use vstd::seq_lib::*;

verus! {

/// `String::push` of the standard library: appends one character and
/// changes nothing else. Trusted, not proved.
pub assume_specification[ String::push ](s: &mut String, c: char)
    ensures
        final(s)@ == old(s)@.push(c),
;

/// `==` on `str` of the standard library: true exactly when both hold the
/// same characters. Trusted, not proved.
pub assume_specification[ <str as PartialEq>::eq ](a: &str, b: &str) -> (r: bool)
    ensures
        r == (a@ == b@),
;

/// Whitespace as the tokenizer sees it: space, tab, carriage return, line feed.
pub open spec fn is_blank(c: char) -> bool {
    c == ' ' || c == '\t' || c == '\r' || c == '\n'
}

/// Whether `c` is whitespace as the tokenizer sees it.
pub fn blank(c: char) -> (r: bool)
    ensures
        r == is_blank(c),
{
    c == ' ' || c == '\t' || c == '\r' || c == '\n'
}

/// Whitespace as trimming sees it: the code points with the Unicode
/// property `White_Space`.
pub open spec fn is_space(c: char) -> bool {
    let n = c as u32;
    ||| 0x09 <= n <= 0x0d
    ||| n == 0x20
    ||| n == 0x85
    ||| n == 0xa0
    ||| n == 0x1680
    ||| 0x2000 <= n <= 0x200a
    ||| n == 0x2028
    ||| n == 0x2029
    ||| n == 0x202f
    ||| n == 0x205f
    ||| n == 0x3000
}

/// Whether `c` is whitespace as trimming sees it.
pub fn space(c: char) -> (r: bool)
    ensures
        r == is_space(c),
{
    let n: u32 = c as u32;
    (0x09 <= n && n <= 0x0d) || n == 0x20 || n == 0x85 || n == 0xa0 || n == 0x1680 || (0x2000 <= n
        && n <= 0x200a) || n == 0x2028 || n == 0x2029 || n == 0x202f || n == 0x205f || n == 0x3000
}

/// Whether `c` is one of `a` to `z` or `A` to `Z`.
pub open spec fn is_ascii_letter(c: char) -> bool {
    ('a' <= c && c <= 'z') || ('A' <= c && c <= 'Z')
}

/// Whether `c` is one of `0` to `9`.
pub open spec fn is_ascii_digit(c: char) -> bool {
    '0' <= c && c <= '9'
}

/// First character of an identifier: an ASCII letter or `_`.
pub open spec fn is_ident_start(c: char) -> bool {
    is_ascii_letter(c) || c == '_'
}

/// Later character of an identifier: an ASCII letter, an ASCII digit or `_`.
pub open spec fn is_ident_char(c: char) -> bool {
    is_ident_start(c) || is_ascii_digit(c)
}

/// Whether `c` can start an identifier.
pub fn ident_start(c: char) -> (r: bool)
    ensures
        r == is_ident_start(c),
{
    ('a' <= c && c <= 'z') || ('A' <= c && c <= 'Z') || c == '_'
}

/// Whether `c` can stand in an identifier.
pub fn ident_char(c: char) -> (r: bool)
    ensures
        r == is_ident_char(c),
{
    ident_start(c) || ('0' <= c && c <= '9')
}

/// A character that can stand in an unquoted word: anything but
/// whitespace, a quote and the operator characters `; & | > <`.
pub open spec fn is_word_char(c: char) -> bool {
    !is_blank(c) && c != '"' && c != '\'' && c != ';' && c != '&' && c != '|' && c != '>' && c
        != '<'
}

/// Whether `c` can stand in an unquoted word.
pub fn word_char(c: char) -> (r: bool)
    ensures
        r == is_word_char(c),
{
    !blank(c) && c != '"' && c != '\'' && c != ';' && c != '&' && c != '|' && c != '>' && c != '<'
}

/// The sets of characters that the scanners run over.
#[derive(Clone, Copy, Debug)]
pub enum CharClass {
    /// Tokenizer whitespace.
    Blank,
    /// Characters of an unquoted word.
    Word,
    /// Characters of an identifier after its first.
    Ident,
    /// Every character but the one given.
    Until(char),
    /// The one character given.
    Only(char),
}

/// Whether `c` belongs to the class `k`.
pub open spec fn in_class(k: CharClass, c: char) -> bool {
    match k {
        CharClass::Blank => is_blank(c),
        CharClass::Word => is_word_char(c),
        CharClass::Ident => is_ident_char(c),
        CharClass::Until(q) => c != q,
        CharClass::Only(q) => c == q,
    }
}

/// Whether `c` belongs to the class `k`.
pub fn class_has(k: CharClass, c: char) -> (r: bool)
    ensures
        r == in_class(k, c),
{
    match k {
        CharClass::Blank => blank(c),
        CharClass::Word => word_char(c),
        CharClass::Ident => ident_char(c),
        CharClass::Until(q) => c != q,
        CharClass::Only(q) => c == q,
    }
}

/// Where the run of characters of class `k` that starts at `i` ends: the
/// index of the first character at or after `i` that is not in `k`, or the
/// length of `s`.
pub open spec fn run_end(s: Seq<char>, i: int, k: CharClass) -> int
    decreases s.len() - i,
{
    if 0 <= i < s.len() && in_class(k, s[i]) {
        run_end(s, i + 1, k)
    } else {
        i
    }
}

/// A run ends inside the input, holds only characters of its class, and
/// stops at the first that is not.
pub proof fn lemma_run_end(s: Seq<char>, i: int, k: CharClass)
    requires
        0 <= i <= s.len(),
    ensures
        i <= run_end(s, i, k) <= s.len(),
        forall|j: int| i <= j < run_end(s, i, k) ==> in_class(k, #[trigger] s[j]),
        run_end(s, i, k) < s.len() ==> !in_class(k, s[run_end(s, i, k)]),
    decreases s.len() - i,
{
    if i < s.len() && in_class(k, s[i]) {
        lemma_run_end(s, i + 1, k);
    }
}

/// A run that starts on a character of its class is not empty.
pub proof fn lemma_run_end_advances(s: Seq<char>, i: int, k: CharClass)
    requires
        0 <= i < s.len(),
        in_class(k, s[i]),
    ensures
        i < run_end(s, i, k) <= s.len(),
{
    lemma_run_end(s, i + 1, k);
}

/// The end of the run of class `k` that starts at `i`.
pub fn scan(v: &Vec<char>, i: usize, k: CharClass) -> (j: usize)
    requires
        i <= v.len(),
    ensures
        j == run_end(v@, i as int, k),
        i <= j <= v.len(),
{
    let mut j: usize = i;
    while j < v.len() && class_has(k, v[j])
        invariant
            i <= j <= v.len(),
            run_end(v@, i as int, k) == run_end(v@, j as int, k),
        decreases v.len() - j,
    {
        j += 1;
    }
    j
}

/// The characters of `s`, in order.
pub fn chars_of(s: &str) -> (v: Vec<char>)
    ensures
        v@ == s@,
{
    let mut v: Vec<char> = Vec::new();
    for c in it: s.chars()
        invariant
            v@ == it.seq().take(it.index() as int),
            it.seq() == s@,
    {
        v.push(c);
    }
    v
}

/// The string made of `v[from..to]`.
pub fn substring(v: &Vec<char>, from: usize, to: usize) -> (s: String)
    requires
        from <= to <= v.len(),
    ensures
        s@ == v@.subrange(from as int, to as int),
{
    let mut s = String::new();
    let mut i: usize = from;
    while i < to
        invariant
            from <= i <= to <= v.len(),
            s@ == v@.subrange(from as int, i as int),
        decreases to - i,
    {
        s.push(v[i]);
        i += 1;
    }
    s
}

/// The string made of all of `v`.
pub fn string_of(v: &Vec<char>) -> (s: String)
    ensures
        s@ == v@,
{
    substring(v, 0, v.len())
}

/// Appends the characters of `s` to `out`.
pub fn push_str(out: &mut Vec<char>, s: &str)
    ensures
        final(out)@ == old(out)@ + s@,
{
    let cs = chars_of(s);
    let mut i: usize = 0;
    while i < cs.len()
        invariant
            0 <= i <= cs.len(),
            cs@ == s@,
            out@ == old(out)@ + cs@.take(i as int),
        decreases cs.len() - i,
    {
        out.push(cs[i]);
        assert(out@ =~= old(out)@ + cs@.take(i + 1));
        i += 1;
    }
    assert(cs@.take(cs.len() as int) =~= cs@);
}

/// Index of the first character of `s` at or after `i` that is not
/// whitespace, or the length of `s` where there is none.
pub open spec fn skip_space(s: Seq<char>, i: int) -> int
    decreases s.len() - i,
{
    if 0 <= i < s.len() && is_space(s[i]) {
        skip_space(s, i + 1)
    } else {
        i
    }
}

/// One past the index of the last character of `s` before `j` that is not
/// whitespace, never less than `i`.
pub open spec fn skip_space_back(s: Seq<char>, i: int, j: int) -> int
    decreases j - i,
{
    if i < j <= s.len() && is_space(s[j - 1]) {
        skip_space_back(s, i, j - 1)
    } else {
        j
    }
}

/// `s` without leading and trailing whitespace.
pub open spec fn trimmed(s: Seq<char>) -> Seq<char> {
    let i = skip_space(s, 0);
    let j = skip_space_back(s, i, s.len() as int);
    s.subrange(i, j)
}

/// The characters of `v` without leading and trailing whitespace.
pub fn trim(v: &Vec<char>) -> (r: Vec<char>)
    ensures
        r@ == trimmed(v@),
{
    let n = v.len();
    let mut i: usize = 0;
    while i < n && space(v[i])
        invariant
            0 <= i <= n == v.len(),
            skip_space(v@, 0) == skip_space(v@, i as int),
        decreases n - i,
    {
        i += 1;
    }
    let mut j: usize = n;
    while i < j && space(v[j - 1])
        invariant
            i <= j <= n == v.len(),
            skip_space_back(v@, i as int, n as int) == skip_space_back(v@, i as int, j as int),
        decreases j - i,
    {
        j -= 1;
    }
    let mut r: Vec<char> = Vec::new();
    let mut k: usize = i;
    while k < j
        invariant
            i <= k <= j <= v.len(),
            r@ == v@.subrange(i as int, k as int),
        decreases j - k,
    {
        r.push(v[k]);
        k += 1;
    }
    r
}

/// Strict lexicographic order by code point, compared from index `i` on.
pub open spec fn lex_lt_from(a: Seq<char>, b: Seq<char>, i: int) -> bool
    decreases a.len() - i,
{
    if i < 0 || i >= b.len() {
        false
    } else if i >= a.len() {
        true
    } else if a[i] == b[i] {
        lex_lt_from(a, b, i + 1)
    } else {
        a[i] < b[i]
    }
}

/// `a` comes strictly before `b` in lexicographic order by code point.
pub open spec fn lex_lt(a: Seq<char>, b: Seq<char>) -> bool {
    lex_lt_from(a, b, 0)
}

/// `a` comes before `b` in lexicographic order by code point, or equals it.
pub open spec fn lex_le(a: Seq<char>, b: Seq<char>) -> bool {
    a == b || lex_lt(a, b)
}

proof fn lemma_lex_irreflexive_from(a: Seq<char>, i: int)
    requires
        0 <= i,
    ensures
        !lex_lt_from(a, a, i),
    decreases a.len() - i,
{
    if i < a.len() {
        lemma_lex_irreflexive_from(a, i + 1);
    }
}

proof fn lemma_lex_transitive_from(a: Seq<char>, b: Seq<char>, c: Seq<char>, i: int)
    requires
        0 <= i,
        lex_lt_from(a, b, i),
        lex_lt_from(b, c, i),
    ensures
        lex_lt_from(a, c, i),
    decreases a.len() - i,
{
    if i < a.len() && a[i] == b[i] && b[i] == c[i] {
        lemma_lex_transitive_from(a, b, c, i + 1);
    }
}

proof fn lemma_lex_asymmetric_from(a: Seq<char>, b: Seq<char>, i: int)
    requires
        0 <= i,
        lex_lt_from(a, b, i),
    ensures
        !lex_lt_from(b, a, i),
    decreases a.len() - i,
{
    if i < a.len() && i < b.len() && a[i] == b[i] {
        lemma_lex_asymmetric_from(a, b, i + 1);
    }
}

proof fn lemma_lex_connected_from(a: Seq<char>, b: Seq<char>, i: int)
    requires
        0 <= i <= a.len(),
        i <= b.len(),
        a.subrange(0, i) == b.subrange(0, i),
        !lex_lt_from(a, b, i),
        !lex_lt_from(b, a, i),
    ensures
        a == b,
    decreases a.len() - i,
{
    if i < a.len() && i < b.len() {
        assert(a[i] == b[i]);
        assert(a.subrange(0, i + 1) =~= a.subrange(0, i).push(a[i]));
        assert(b.subrange(0, i + 1) =~= b.subrange(0, i).push(b[i]));
        lemma_lex_connected_from(a, b, i + 1);
    } else {
        assert(a.len() == b.len());
        assert(a =~= a.subrange(0, i));
        assert(b =~= b.subrange(0, i));
    }
}

/// The order is strict: nothing comes before itself, and of two sequences
/// at most one comes before the other.
pub proof fn lemma_lex_strict(a: Seq<char>, b: Seq<char>)
    ensures
        !lex_lt(a, a),
        lex_lt(a, b) ==> !lex_lt(b, a),
{
    lemma_lex_irreflexive_from(a, 0);
    if lex_lt(a, b) {
        lemma_lex_asymmetric_from(a, b, 0);
    }
}

/// The order is transitive.
pub proof fn lemma_lex_transitive(a: Seq<char>, b: Seq<char>, c: Seq<char>)
    requires
        lex_lt(a, b),
        lex_lt(b, c),
    ensures
        lex_lt(a, c),
{
    lemma_lex_transitive_from(a, b, c, 0);
}

/// The order is total: of two different sequences one comes before the other.
pub proof fn lemma_lex_total(a: Seq<char>, b: Seq<char>)
    ensures
        a == b || lex_lt(a, b) || lex_lt(b, a),
{
    if !lex_lt(a, b) && !lex_lt(b, a) {
        assert(a.subrange(0, 0) =~= b.subrange(0, 0));
        lemma_lex_connected_from(a, b, 0);
    }
}

/// The order by which strings are sorted.
pub open spec fn lex_order() -> spec_fn(Seq<char>, Seq<char>) -> bool {
    |a: Seq<char>, b: Seq<char>| lex_le(a, b)
}

/// `lex_le` is a total order on sequences of characters.
pub proof fn lemma_lex_le_total_ordering()
    ensures
        total_ordering(lex_order()),
{
    let r = lex_order();
    assert forall|x: Seq<char>, y: Seq<char>| #[trigger] r(x, y) && #[trigger] r(y, x) implies x
        == y by {
        lemma_lex_strict(x, y);
    }
    assert forall|x: Seq<char>, y: Seq<char>, z: Seq<char>| #[trigger] r(x, y) && #[trigger] r(
        y,
        z,
    ) implies r(x, z) by {
        if x != y && y != z {
            lemma_lex_transitive(x, y, z);
        }
    }
    assert forall|x: Seq<char>, y: Seq<char>| #[trigger] r(x, y) || #[trigger] r(y, x) by {
        lemma_lex_total(x, y);
    }
}

/// Whether `a` comes strictly before `b`.
pub fn chars_lt(a: &Vec<char>, b: &Vec<char>) -> (r: bool)
    ensures
        r == lex_lt(a@, b@),
{
    let mut i: usize = 0;
    loop
        invariant
            0 <= i <= a.len(),
            i <= b.len(),
            lex_lt(a@, b@) == lex_lt_from(a@, b@, i as int),
        decreases a.len() - i,
    {
        if i >= b.len() {
            return false;
        }
        if i >= a.len() {
            return true;
        }
        let x = a[i];
        let y = b[i];
        if x != y {
            return x < y;
        }
        i += 1;
    }
}

/// Whether `a` comes strictly before `b`.
pub fn str_lt(a: &str, b: &str) -> (r: bool)
    ensures
        r == lex_lt(a@, b@),
{
    let x = chars_of(a);
    let y = chars_of(b);
    chars_lt(&x, &y)
}

/// The strings of `v` in lexicographic order.
pub fn sort_strings(v: Vec<String>) -> (r: Vec<String>)
    ensures
        view_seq(r@) == view_seq(v@).sort_by(lex_order()),
{
    let ghost leq = lex_order();
    let mut r: Vec<String> = Vec::new();
    let mut v = v;
    let ghost orig = view_seq(v@);
    let ghost mut taken: Seq<Seq<char>> = Seq::empty();
    proof {
        assert(orig =~= taken + view_seq(v@));
        assert(view_seq(r@) =~= taken);
    }
    // Each round moves the first of what is left to its place in `r`.
    while v.len() > 0
        invariant
            leq == lex_order(),
            sorted_by(view_seq(r@), leq),
            view_seq(r@).to_multiset() == taken.to_multiset(),
            orig == taken + view_seq(v@),
        decreases v.len(),
    {
        let ghost before_v = view_seq(v@);
        let ghost before_r = view_seq(r@);
        let s = v.remove(0);
        let sc = chars_of(s.as_str());
        let mut k: usize = 0;
        while k < r.len() && !chars_lt(&sc, &chars_of(r[k].as_str()))
            invariant
                0 <= k <= r.len(),
                sc@ == s@,
                forall|j: int| 0 <= j < k ==> lex_le(#[trigger] r[j]@, s@),
            decreases r.len() - k,
        {
            proof {
                lemma_lex_total(s@, r[k as int]@);
            }
            k += 1;
        }
        r.insert(k, s);
        proof {
            let after_r = view_seq(r@);
            assert(after_r =~= before_r.insert(k as int, s@));
            assert(view_seq(v@) =~= before_v.drop_first());
            assert(before_v[0] == s@);
            to_multiset_insert(before_r, k as int, s@);
            to_multiset_build(taken, s@);
            assert(taken.push(s@) + view_seq(v@) =~= taken + before_v);
            assert forall|i: int, j: int| 0 <= i < j < after_r.len() implies #[trigger] leq(
                after_r[i],
                after_r[j],
            ) by {
                if j == k {
                    assert(after_r[i] == before_r[i]);
                } else if i == k {
                    assert(after_r[j] == before_r[j - 1]);
                    assert(lex_lt(s@, before_r[k as int]));
                    if j - 1 > k {
                        assert(leq(before_r[k as int], before_r[j - 1]));
                        if before_r[k as int] != before_r[j - 1] {
                            lemma_lex_transitive(s@, before_r[k as int], before_r[j - 1]);
                        }
                    }
                } else if j < k {
                    assert(leq(before_r[i], before_r[j]));
                } else if i < k {
                    assert(leq(before_r[i], before_r[j - 1]));
                } else {
                    assert(leq(before_r[i - 1], before_r[j - 1]));
                }
            }
            taken = taken.push(s@);
        }
    }
    proof {
        assert(view_seq(v@) =~= Seq::<Seq<char>>::empty());
        assert(orig =~= taken);
        lemma_lex_le_total_ordering();
        orig.lemma_sort_by_ensures(leq);
        lemma_sorted_unique(view_seq(r@), orig.sort_by(leq), leq);
    }
    r
}

/// The character for a decimal digit.
pub open spec fn digit_char(d: nat) -> char {
    if d == 0 {
        '0'
    } else if d == 1 {
        '1'
    } else if d == 2 {
        '2'
    } else if d == 3 {
        '3'
    } else if d == 4 {
        '4'
    } else if d == 5 {
        '5'
    } else if d == 6 {
        '6'
    } else if d == 7 {
        '7'
    } else if d == 8 {
        '8'
    } else {
        '9'
    }
}

/// `n` in decimal, without sign or leading zeros.
pub open spec fn decimal(n: nat) -> Seq<char>
    decreases n,
{
    if n < 10 {
        seq![digit_char(n)]
    } else {
        decimal(n / 10).push(digit_char(n % 10))
    }
}

fn digit(d: u64) -> (c: char)
    requires
        d < 10,
    ensures
        c == digit_char(d as nat),
{
    if d == 0 {
        '0'
    } else if d == 1 {
        '1'
    } else if d == 2 {
        '2'
    } else if d == 3 {
        '3'
    } else if d == 4 {
        '4'
    } else if d == 5 {
        '5'
    } else if d == 6 {
        '6'
    } else if d == 7 {
        '7'
    } else if d == 8 {
        '8'
    } else {
        '9'
    }
}

/// Appends `n` in decimal to `out`.
pub fn push_decimal(out: &mut Vec<char>, n: u64)
    ensures
        final(out)@ == old(out)@ + decimal(n as nat),
    decreases n,
{
    if n >= 10 {
        push_decimal(out, n / 10);
    }
    out.push(digit(n % 10));
    assert(out@ =~= old(out)@ + decimal(n as nat));
}

/// The value of a decimal digit, `None` for any other character.
pub open spec fn digit_value(c: char) -> Option<nat> {
    if is_ascii_digit(c) {
        Some((c as u32 - '0' as u32) as nat)
    } else {
        None
    }
}

/// The number that the digits of `s` spell; `None` where `s` is empty or
/// holds anything but decimal digits.
pub open spec fn number_of(s: Seq<char>) -> Option<nat>
    decreases s.len(),
{
    if s.len() == 0 {
        None
    } else {
        match digit_value(s.last()) {
            Some(d) => if s.len() == 1 {
                Some(d)
            } else {
                match number_of(s.drop_last()) {
                    Some(n) => Some(n * 10 + d),
                    None => None,
                }
            },
            None => None,
        }
    }
}

/// The number that `v[from..to]` spells in decimal digits, `None` where it
/// spells none or one that does not fit 64 bits.
pub fn parse_u64(v: &Vec<char>, from: usize, to: usize) -> (r: Option<u64>)
    requires
        from <= to <= v.len(),
    ensures
        match r {
            Some(n) => number_of(v@.subrange(from as int, to as int)) == Some(n as nat),
            None => match number_of(v@.subrange(from as int, to as int)) {
                Some(n) => n > u64::MAX,
                None => true,
            },
        },
{
    if from == to {
        return None;
    }
    let mut n: u64 = 0;
    let mut i: usize = from;
    while i < to
        invariant
            from <= i <= to <= v.len(),
            from < to,
            i > from ==> number_of(v@.subrange(from as int, i as int)) == Some(n as nat),
            i == from ==> n == 0,
        decreases to - i,
    {
        let c = v[i];
        let ghost s = v@.subrange(from as int, i + 1);
        proof {
            assert(s.drop_last() =~= v@.subrange(from as int, i as int));
            assert(s.last() == c);
        }
        if !('0' <= c && c <= '9') {
            proof {
                lemma_number_prefix(v@.subrange(from as int, to as int), i + 1 - from);
                assert(v@.subrange(from as int, to as int).take(i + 1 - from) =~= s);
            }
            return None;
        }
        let d: u64 = (c as u32 - '0' as u32) as u64;
        if n > (u64::MAX - d) / 10 {
            proof {
                let whole = v@.subrange(from as int, to as int);
                assert(whole.take(i + 1 - from) =~= s);
                lemma_number_prefix(whole, i + 1 - from);
                lemma_number_grows(whole, i + 1 - from);
            }
            return None;
        }
        n = n * 10 + d;
        i += 1;
    }
    assert(v@.subrange(from as int, i as int) =~= v@.subrange(from as int, to as int));
    Some(n)
}

/// The number that `v[from..to]` spells in decimal digits, `None` where it
/// spells none or one that does not fit the machine word.
pub fn parse_number(v: &Vec<char>, from: usize, to: usize) -> (r: Option<usize>)
    requires
        from <= to <= v.len(),
    ensures
        match r {
            Some(n) => number_of(v@.subrange(from as int, to as int)) == Some(n as nat),
            None => match number_of(v@.subrange(from as int, to as int)) {
                Some(n) => n > usize::MAX,
                None => true,
            },
        },
{
    match parse_u64(v, from, to) {
        Some(n) => if n <= usize::MAX as u64 {
            Some(n as usize)
        } else {
            None
        },
        None => None,
    }
}

/// The integer that `s` spells: decimal digits, with `+` or `-` before
/// them or neither; `None` where it spells none.
pub open spec fn integer_of(s: Seq<char>) -> Option<int> {
    if s.len() > 0 && (s[0] == '-' || s[0] == '+') {
        match number_of(s.skip(1)) {
            Some(n) => Some(
                if s[0] == '-' {
                    -(n as int)
                } else {
                    n as int
                },
            ),
            None => None,
        }
    } else {
        match number_of(s) {
            Some(n) => Some(n as int),
            None => None,
        }
    }
}

/// The integer that `s` spells, `None` where it spells none or one that
/// does not fit 64 bits.
pub fn parse_i64(s: &str) -> (r: Option<i64>)
    ensures
        match r {
            Some(n) => integer_of(s@) == Some(n as int),
            None => match integer_of(s@) {
                Some(n) => n < i64::MIN || n > i64::MAX,
                None => true,
            },
        },
{
    let v = chars_of(s);
    let n = v.len();
    if n > 0 && (v[0] == '-' || v[0] == '+') {
        assert(v@.subrange(1, n as int) =~= s@.skip(1));
        match parse_u64(&v, 1, n) {
            Some(m) => {
                if v[0] == '-' {
                    if m <= 0x7fff_ffff_ffff_ffff {
                        Some(-(m as i64))
                    } else if m == 0x8000_0000_0000_0000 {
                        Some(i64::MIN)
                    } else {
                        None
                    }
                } else if m <= 0x7fff_ffff_ffff_ffff {
                    Some(m as i64)
                } else {
                    None
                }
            },
            None => None,
        }
    } else {
        assert(v@.subrange(0, n as int) =~= s@);
        match parse_u64(&v, 0, n) {
            Some(m) => if m <= 0x7fff_ffff_ffff_ffff {
                Some(m as i64)
            } else {
                None
            },
            None => None,
        }
    }
}

/// Where a prefix spells no number, neither does the whole.
pub proof fn lemma_number_prefix(s: Seq<char>, k: int)
    requires
        0 < k <= s.len(),
    ensures
        number_of(s.take(k)) is None ==> number_of(s) is None,
    decreases s.len() - k,
{
    if k < s.len() {
        lemma_number_prefix(s, k + 1);
        assert(s.take(k + 1).drop_last() =~= s.take(k));
    } else {
        assert(s.take(k) =~= s);
    }
}

/// A number is at least what any prefix of its digits spells.
pub proof fn lemma_number_grows(s: Seq<char>, k: int)
    requires
        0 < k <= s.len(),
    ensures
        match (number_of(s.take(k)), number_of(s)) {
            (Some(a), Some(b)) => a <= b,
            _ => true,
        },
    decreases s.len() - k,
{
    if k < s.len() {
        lemma_number_grows(s, k + 1);
        lemma_number_prefix(s, k + 1);
        assert(s.take(k + 1).drop_last() =~= s.take(k));
    } else {
        assert(s.take(k) =~= s);
    }
}

/// `parts` with `sep` between each two.
pub open spec fn join_with(parts: Seq<Seq<char>>, sep: Seq<char>) -> Seq<char>
    decreases parts.len(),
{
    if parts.len() == 0 {
        Seq::empty()
    } else if parts.len() == 1 {
        parts[0]
    } else {
        join_with(parts.drop_last(), sep) + sep + parts.last()
    }
}

/// Appends the strings of `parts` to `out`, with `sep` between each two.
pub fn push_joined(out: &mut Vec<char>, parts: &Vec<String>, sep: &str)
    ensures
        final(out)@ == old(out)@ + join_with(view_seq(parts@), sep@),
{
    let ghost ps = view_seq(parts@);
    let mut k: usize = 0;
    assert(out@ =~= old(out)@ + join_with(ps.take(0), sep@));
    while k < parts.len()
        invariant
            0 <= k <= parts.len(),
            ps == view_seq(parts@),
            out@ == old(out)@ + join_with(ps.take(k as int), sep@),
        decreases parts.len() - k,
    {
        proof {
            assert(ps.take(k + 1).drop_last() =~= ps.take(k as int));
            assert(ps.take(k + 1).last() == parts[k as int]@);
        }
        if k > 0 {
            push_str(out, sep);
        }
        push_str(out, parts[k].as_str());
        proof {
            if k > 0 {
                assert(out@ =~= old(out)@ + (join_with(ps.take(k as int), sep@) + sep@
                    + parts[k as int]@));
            } else {
                assert(join_with(ps.take(0), sep@) =~= Seq::<char>::empty());
                assert(out@ =~= old(out)@ + parts[0]@);
            }
        }
        k += 1;
    }
    assert(ps.take(k as int) =~= ps);
}

} // verus!
