//! `test` and `[`: conditional expressions.
//!
//! ```text
//! or      := and ('-o' and)*
//! and     := not ('-a' not)*
//! not     := '!' not | primary
//! primary := '(' or ')' | file-op WORD | '-n' WORD | '-z' WORD
//!          | WORD binary-op WORD | WORD
//! ```
//!
//! An expression is read first and evaluated after. What the file system
//! says of the files that it names is for the caller to find out: it asks
//! for the file tests of an expression and hands in their answers.

use crate::ast::view_seq;
use crate::text::{integer_of, parse_i64};
use vstd::prelude::*;

verus! {

/// A test of a file.
#[derive(Debug, Clone, Copy, PartialEq, Eq)]
pub enum FileOp {
    /// `-e`: the file exists.
    Exists,
    /// `-f`: it is a regular file.
    IsFile,
    /// `-d`: it is a directory.
    IsDir,
    /// `-r`: it can be read.
    Readable,
    /// `-w`: it can be written.
    Writable,
    /// `-x`: it can be executed.
    Executable,
    /// `-s`: it is not empty.
    HasSize,
    /// `-L`, `-h`: it is a symbolic link.
    Symlink,
}

/// A comparison of two words.
#[derive(Debug, Clone, Copy, PartialEq, Eq)]
pub enum BinOp {
    StrEq,
    StrNe,
    IntEq,
    IntNe,
    IntLt,
    IntLe,
    IntGt,
    IntGe,
}

/// A conditional expression. Words are given by their index among the
/// arguments.
#[derive(Debug, PartialEq, Eq)]
pub enum TestExpr {
    Or(Box<TestExpr>, Box<TestExpr>),
    And(Box<TestExpr>, Box<TestExpr>),
    Not(Box<TestExpr>),
    File(FileOp, usize),
    /// `-z WORD`: the word is empty.
    Empty(usize),
    /// `-n WORD`, and a word alone: the word is not empty.
    Filled(usize),
    Binary(usize, BinOp, usize),
}

/// Why an expression cannot be read or evaluated.
#[derive(Debug, Clone, Copy, PartialEq, Eq)]
pub enum TestError {
    /// `[` without `]` as its last argument.
    MissingBracket,
    /// An expression was expected where the arguments end.
    ExpectedExpression,
    /// `(` without its `)`.
    MissingParen,
    /// The operator at this index has no operand behind it.
    ExpectedArgument(usize),
    /// The argument at this index is left over.
    Unexpected(usize),
    /// The argument at this index is compared as an integer and is none.
    NotAnInteger(usize),
}

/// The file test that the operator `s` stands for.
pub open spec fn spec_file_op(s: Seq<char>) -> Option<FileOp> {
    if s == "-e"@ {
        Some(FileOp::Exists)
    } else if s == "-f"@ {
        Some(FileOp::IsFile)
    } else if s == "-d"@ {
        Some(FileOp::IsDir)
    } else if s == "-r"@ {
        Some(FileOp::Readable)
    } else if s == "-w"@ {
        Some(FileOp::Writable)
    } else if s == "-x"@ {
        Some(FileOp::Executable)
    } else if s == "-s"@ {
        Some(FileOp::HasSize)
    } else if s == "-L"@ || s == "-h"@ {
        Some(FileOp::Symlink)
    } else {
        None
    }
}

/// The comparison that the operator `s` stands for.
pub open spec fn spec_bin_op(s: Seq<char>) -> Option<BinOp> {
    if s == "="@ || s == "=="@ {
        Some(BinOp::StrEq)
    } else if s == "!="@ {
        Some(BinOp::StrNe)
    } else if s == "-eq"@ {
        Some(BinOp::IntEq)
    } else if s == "-ne"@ {
        Some(BinOp::IntNe)
    } else if s == "-lt"@ {
        Some(BinOp::IntLt)
    } else if s == "-le"@ {
        Some(BinOp::IntLe)
    } else if s == "-gt"@ {
        Some(BinOp::IntGt)
    } else if s == "-ge"@ {
        Some(BinOp::IntGe)
    } else {
        None
    }
}

fn file_op(s: &str) -> (r: Option<FileOp>)
    ensures
        r == spec_file_op(s@),
{
    if s.eq("-e") {
        Some(FileOp::Exists)
    } else if s.eq("-f") {
        Some(FileOp::IsFile)
    } else if s.eq("-d") {
        Some(FileOp::IsDir)
    } else if s.eq("-r") {
        Some(FileOp::Readable)
    } else if s.eq("-w") {
        Some(FileOp::Writable)
    } else if s.eq("-x") {
        Some(FileOp::Executable)
    } else if s.eq("-s") {
        Some(FileOp::HasSize)
    } else if s.eq("-L") || s.eq("-h") {
        Some(FileOp::Symlink)
    } else {
        None
    }
}

fn bin_op(s: &str) -> (r: Option<BinOp>)
    ensures
        r == spec_bin_op(s@),
{
    if s.eq("=") || s.eq("==") {
        Some(BinOp::StrEq)
    } else if s.eq("!=") {
        Some(BinOp::StrNe)
    } else if s.eq("-eq") {
        Some(BinOp::IntEq)
    } else if s.eq("-ne") {
        Some(BinOp::IntNe)
    } else if s.eq("-lt") {
        Some(BinOp::IntLt)
    } else if s.eq("-le") {
        Some(BinOp::IntLe)
    } else if s.eq("-gt") {
        Some(BinOp::IntGt)
    } else if s.eq("-ge") {
        Some(BinOp::IntGe)
    } else {
        None
    }
}

/// Whether `s` is an operator that compares two words.
pub fn is_binary_op(s: &str) -> (r: bool)
    ensures
        r == spec_bin_op(s@) is Some,
{
    bin_op(s).is_some()
}

/// Whether the word at index `i` is an operator that compares two words.
pub open spec fn binary_at(args: Seq<Seq<char>>, i: int) -> bool {
    0 <= i < args.len() && spec_bin_op(args[i]) is Some
}

/// The unary test, if any, that starts at `pos`: an operator before a
/// word, where no comparison follows the word. `Err` where the operator
/// is the last argument.
pub open spec fn unary_at(args: Seq<Seq<char>>, pos: int) -> Result<Option<TestExpr>, TestError> {
    let is_unary = spec_file_op(args[pos]) is Some || args[pos] == "-n"@ || args[pos] == "-z"@;
    if !is_unary {
        Ok(None)
    } else if pos + 1 >= args.len() {
        Err(TestError::ExpectedArgument(pos as usize))
    } else if binary_at(args, pos + 2) {
        Ok(None)
    } else {
        Ok(
            Some(
                match spec_file_op(args[pos]) {
                    Some(op) => TestExpr::File(op, (pos + 1) as usize),
                    None => if args[pos] == "-n"@ {
                        TestExpr::Filled((pos + 1) as usize)
                    } else {
                        TestExpr::Empty((pos + 1) as usize)
                    },
                },
            ),
        )
    }
}

/// The expression that starts at `pos`, and where it ends. `level` says
/// which rule of the grammar is read: 3 for `or`, 2 for `and`, 1 for `not`,
/// 0 for `primary`.
pub open spec fn spec_parse(args: Seq<Seq<char>>, pos: int, level: int) -> Result<
    (TestExpr, int),
    TestError,
>
    decreases args.len() - pos, level, 0int,
{
    if pos < 0 || level < 0 {
        Err(TestError::ExpectedExpression)
    } else if level >= 2 {
        match spec_parse(args, pos, level - 1) {
            Ok((left, p)) => if pos < p <= args.len() {
                spec_tail(args, p, level, left)
            } else {
                Err(TestError::ExpectedExpression)
            },
            Err(e) => Err(e),
        }
    } else if level == 1 {
        if pos < args.len() && args[pos] == "!"@ {
            match spec_parse(args, pos + 1, 1) {
                Ok((e, p)) => Ok((TestExpr::Not(Box::new(e)), p)),
                Err(e) => Err(e),
            }
        } else {
            spec_parse(args, pos, 0)
        }
    } else if pos >= args.len() {
        Err(TestError::ExpectedExpression)
    } else if args[pos] == "("@ {
        match spec_parse(args, pos + 1, 3) {
            Ok((e, p)) => if p < args.len() && args[p] == ")"@ {
                Ok((e, p + 1))
            } else {
                Err(TestError::MissingParen)
            },
            Err(e) => Err(e),
        }
    } else {
        match unary_at(args, pos) {
            Err(e) => Err(e),
            Ok(Some(e)) => Ok((e, pos + 2)),
            Ok(None) => if binary_at(args, pos + 1) {
                if pos + 2 >= args.len() {
                    Err(TestError::ExpectedArgument((pos + 1) as usize))
                } else {
                    Ok(
                        (
                            TestExpr::Binary(
                                pos as usize,
                                spec_bin_op(args[pos + 1])->0,
                                (pos + 2) as usize,
                            ),
                            pos + 3,
                        ),
                    )
                }
            } else {
                Ok((TestExpr::Filled(pos as usize), pos + 1))
            },
        }
    }
}

/// What follows the first operand of an `or` (level 3) or an `and`
/// (level 2): its operator and another operand, as often as they come.
pub open spec fn spec_tail(
    args: Seq<Seq<char>>,
    pos: int,
    level: int,
    left: TestExpr,
) -> Result<(TestExpr, int), TestError>
    decreases args.len() - pos, level, 1int,
{
    let op = if level == 3 {
        "-o"@
    } else {
        "-a"@
    };
    if 0 <= pos < args.len() && args[pos] == op && level >= 2 {
        match spec_parse(args, pos + 1, level - 1) {
            Ok((right, p)) => if pos < p <= args.len() {
                spec_tail(
                    args,
                    p,
                    level,
                    if level == 3 {
                        TestExpr::Or(Box::new(left), Box::new(right))
                    } else {
                        TestExpr::And(Box::new(left), Box::new(right))
                    },
                )
            } else {
                Err(TestError::ExpectedExpression)
            },
            Err(e) => Err(e),
        }
    } else {
        Ok((left, pos))
    }
}

/// Whether the words of `e` are among the first `n` arguments.
pub open spec fn in_bounds(e: TestExpr, n: int) -> bool
    decreases e,
{
    match e {
        TestExpr::Or(a, b) => in_bounds(*a, n) && in_bounds(*b, n),
        TestExpr::And(a, b) => in_bounds(*a, n) && in_bounds(*b, n),
        TestExpr::Not(a) => in_bounds(*a, n),
        TestExpr::File(_, i) => i < n,
        TestExpr::Empty(i) => i < n,
        TestExpr::Filled(i) => i < n,
        TestExpr::Binary(i, _, j) => i < n && j < n,
    }
}

/// The file tests of `e`, from left to right, each with the index of the
/// word that names the file.
pub open spec fn file_tests(e: TestExpr) -> Seq<(FileOp, usize)>
    decreases e,
{
    match e {
        TestExpr::Or(a, b) => file_tests(*a) + file_tests(*b),
        TestExpr::And(a, b) => file_tests(*a) + file_tests(*b),
        TestExpr::Not(a) => file_tests(*a),
        TestExpr::File(op, i) => seq![(op, i)],
        _ => Seq::empty(),
    }
}

/// The outcome of a comparison.
pub open spec fn spec_eval_binary(lhs: Seq<char>, op: BinOp, rhs: Seq<char>) -> Option<bool> {
    match op {
        BinOp::StrEq => Some(lhs == rhs),
        BinOp::StrNe => Some(lhs != rhs),
        _ => match (integer_of(lhs), integer_of(rhs)) {
            (Some(a), Some(b)) => if i64::MIN <= a <= i64::MAX && i64::MIN <= b <= i64::MAX {
                Some(
                    match op {
                        BinOp::IntEq => a == b,
                        BinOp::IntNe => a != b,
                        BinOp::IntLt => a < b,
                        BinOp::IntLe => a <= b,
                        BinOp::IntGt => a > b,
                        _ => a >= b,
                    },
                )
            } else {
                None
            },
            _ => None,
        },
    }
}

/// Whether `s` spells an integer of 64 bits.
pub open spec fn is_integer(s: Seq<char>) -> bool {
    match integer_of(s) {
        Some(a) => i64::MIN <= a <= i64::MAX,
        None => false,
    }
}

/// The value of `e`, given the answers to its file tests from index `k`
/// on. A comparison of integers fails at the first operand that is none.
pub open spec fn spec_eval(e: TestExpr, args: Seq<Seq<char>>, answers: Seq<bool>, k: int) -> Result<
    bool,
    TestError,
>
    decreases e,
{
    match e {
        TestExpr::Or(a, b) => match spec_eval(*a, args, answers, k) {
            Ok(x) => match spec_eval(*b, args, answers, k + file_tests(*a).len()) {
                Ok(y) => Ok(x || y),
                Err(e) => Err(e),
            },
            Err(e) => Err(e),
        },
        TestExpr::And(a, b) => match spec_eval(*a, args, answers, k) {
            Ok(x) => match spec_eval(*b, args, answers, k + file_tests(*a).len()) {
                Ok(y) => Ok(x && y),
                Err(e) => Err(e),
            },
            Err(e) => Err(e),
        },
        TestExpr::Not(a) => match spec_eval(*a, args, answers, k) {
            Ok(x) => Ok(!x),
            Err(e) => Err(e),
        },
        TestExpr::File(_, _) => Ok(answers[k]),
        TestExpr::Empty(i) => Ok(args[i as int].len() == 0),
        TestExpr::Filled(i) => Ok(args[i as int].len() > 0),
        TestExpr::Binary(i, op, j) => match spec_eval_binary(args[i as int], op, args[j as int]) {
            Some(b) => Ok(b),
            None => Err(
                TestError::NotAnInteger(
                    if is_integer(args[i as int]) {
                        j
                    } else {
                        i
                    },
                ),
            ),
        },
    }
}

/// The outcome of the comparison `lhs op rhs`; `None` where an integer is
/// compared that is none.
pub fn eval_binary(lhs: &str, op: BinOp, rhs: &str) -> (r: Option<bool>)
    ensures
        r == spec_eval_binary(lhs@, op, rhs@),
{
    match op {
        BinOp::StrEq => Some(lhs.eq(rhs)),
        BinOp::StrNe => Some(!lhs.eq(rhs)),
        _ => {
            let a = match parse_i64(lhs) {
                Some(a) => a,
                None => {
                    return None;
                },
            };
            let b = match parse_i64(rhs) {
                Some(b) => b,
                None => {
                    return None;
                },
            };
            Some(
                match op {
                    BinOp::IntEq => a == b,
                    BinOp::IntNe => a != b,
                    BinOp::IntLt => a < b,
                    BinOp::IntLe => a <= b,
                    BinOp::IntGt => a > b,
                    _ => a >= b,
                },
            )
        },
    }
}

/// The primary expression at `pos`.
pub fn parse_primary(args: &[String], pos: usize) -> (r: Result<(TestExpr, usize), TestError>)
    requires
        pos <= args.len(),
    ensures
        match r {
            Ok((e, p)) => pos < p <= args.len() && in_bounds(e, args.len() as int) && spec_parse(
                view_seq(args@),
                pos as int,
                0,
            ) == Ok::<(TestExpr, int), TestError>((e, p as int)),
            Err(x) => spec_parse(view_seq(args@), pos as int, 0) == Err::<
                (TestExpr, int),
                TestError,
            >(x),
        },
    decreases args.len() - pos, 0int,
{
    let ghost all = view_seq(args@);
    let n = args.len();
    if pos >= n {
        return Err(TestError::ExpectedExpression);
    }
    let token = args[pos].as_str();
    assert(all[pos as int] == token@);
    if token.eq("(") {
        return match parse_or(args, pos + 1) {
            Ok((e, p)) => {
                if p < n {
                    assert(all[p as int] == args[p as int]@);
                }
                if p < n && args[p].as_str().eq(")") {
                    Ok((e, p + 1))
                } else {
                    Err(TestError::MissingParen)
                }
            },
            Err(x) => Err(x),
        };
    }
    let file = file_op(token);
    let filled = token.eq("-n");
    if file.is_some() || filled || token.eq("-z") {
        if pos + 1 >= n {
            return Err(TestError::ExpectedArgument(pos));
        }
        let followed = if pos + 2 < n {
            assert(all[pos + 2] == args[pos + 2]@);
            is_binary_op(args[pos + 2].as_str())
        } else {
            false
        };
        if !followed {
            let e = match file {
                Some(op) => TestExpr::File(op, pos + 1),
                None => if filled {
                    TestExpr::Filled(pos + 1)
                } else {
                    TestExpr::Empty(pos + 1)
                },
            };
            return Ok((e, pos + 2));
        }
    }
    if pos + 1 < n {
        assert(all[pos + 1] == args[pos + 1]@);
        match bin_op(args[pos + 1].as_str()) {
            Some(op) => {
                return if pos + 2 >= n {
                    Err(TestError::ExpectedArgument(pos + 1))
                } else {
                    Ok((TestExpr::Binary(pos, op, pos + 2), pos + 3))
                };
            },
            None => {},
        }
    }
    Ok((TestExpr::Filled(pos), pos + 1))
}

/// The `not` expression at `pos`.
pub fn parse_not(args: &[String], pos: usize) -> (r: Result<(TestExpr, usize), TestError>)
    requires
        pos <= args.len(),
    ensures
        match r {
            Ok((e, p)) => pos < p <= args.len() && in_bounds(e, args.len() as int) && spec_parse(
                view_seq(args@),
                pos as int,
                1,
            ) == Ok::<(TestExpr, int), TestError>((e, p as int)),
            Err(x) => spec_parse(view_seq(args@), pos as int, 1) == Err::<
                (TestExpr, int),
                TestError,
            >(x),
        },
    decreases args.len() - pos, 1int,
{
    if pos < args.len() {
        assert(view_seq(args@)[pos as int] == args[pos as int]@);
    }
    if pos < args.len() && args[pos].as_str().eq("!") {
        match parse_not(args, pos + 1) {
            Ok((e, p)) => Ok((TestExpr::Not(Box::new(e)), p)),
            Err(x) => Err(x),
        }
    } else {
        parse_primary(args, pos)
    }
}

/// The `and` expression at `pos`.
pub fn parse_and(args: &[String], pos: usize) -> (r: Result<(TestExpr, usize), TestError>)
    requires
        pos <= args.len(),
    ensures
        match r {
            Ok((e, p)) => pos < p <= args.len() && in_bounds(e, args.len() as int) && spec_parse(
                view_seq(args@),
                pos as int,
                2,
            ) == Ok::<(TestExpr, int), TestError>((e, p as int)),
            Err(x) => spec_parse(view_seq(args@), pos as int, 2) == Err::<
                (TestExpr, int),
                TestError,
            >(x),
        },
    decreases args.len() - pos, 2int,
{
    let ghost all = view_seq(args@);
    let (first, start) = match parse_not(args, pos) {
        Ok(found) => found,
        Err(x) => {
            return Err(x);
        },
    };
    let mut left = first;
    let mut cur = start;
    loop
        invariant
            pos < cur <= args.len(),
            all == view_seq(args@),
            in_bounds(left, args.len() as int),
            spec_parse(all, pos as int, 2) == spec_tail(all, cur as int, 2, left),
        decreases args.len() - cur,
    {
        if cur < args.len() {
            assert(all[cur as int] == args[cur as int]@);
        }
        if !(cur < args.len() && args[cur].as_str().eq("-a")) {
            return Ok((left, cur));
        }
        match parse_not(args, cur + 1) {
            Ok((right, p)) => {
                left = TestExpr::And(Box::new(left), Box::new(right));
                cur = p;
            },
            Err(x) => {
                return Err(x);
            },
        }
    }
}

/// The `or` expression at `pos`.
pub fn parse_or(args: &[String], pos: usize) -> (r: Result<(TestExpr, usize), TestError>)
    requires
        pos <= args.len(),
    ensures
        match r {
            Ok((e, p)) => pos < p <= args.len() && in_bounds(e, args.len() as int) && spec_parse(
                view_seq(args@),
                pos as int,
                3,
            ) == Ok::<(TestExpr, int), TestError>((e, p as int)),
            Err(x) => spec_parse(view_seq(args@), pos as int, 3) == Err::<
                (TestExpr, int),
                TestError,
            >(x),
        },
    decreases args.len() - pos, 3int,
{
    let ghost all = view_seq(args@);
    let (first, start) = match parse_and(args, pos) {
        Ok(found) => found,
        Err(x) => {
            return Err(x);
        },
    };
    let mut left = first;
    let mut cur = start;
    loop
        invariant
            pos < cur <= args.len(),
            all == view_seq(args@),
            in_bounds(left, args.len() as int),
            spec_parse(all, pos as int, 3) == spec_tail(all, cur as int, 3, left),
        decreases args.len() - cur,
    {
        if cur < args.len() {
            assert(all[cur as int] == args[cur as int]@);
        }
        if !(cur < args.len() && args[cur].as_str().eq("-o")) {
            return Ok((left, cur));
        }
        match parse_and(args, cur + 1) {
            Ok((right, p)) => {
                left = TestExpr::Or(Box::new(left), Box::new(right));
                cur = p;
            },
            Err(x) => {
                return Err(x);
            },
        }
    }
}

/// The expression that the arguments of `test` spell, `None` where there
/// are none; for `[` (`bracket`), the arguments before the closing `]`.
pub open spec fn spec_test(args: Seq<Seq<char>>, bracket: bool) -> Result<
    Option<TestExpr>,
    TestError,
> {
    if bracket && (args.len() == 0 || args.last() != "]"@) {
        Err(TestError::MissingBracket)
    } else {
        let words = if bracket {
            args.drop_last()
        } else {
            args
        };
        if words.len() == 0 {
            Ok(None)
        } else {
            match spec_parse(words, 0, 3) {
                Ok((e, p)) => if p == words.len() {
                    Ok(Some(e))
                } else {
                    Err(TestError::Unexpected(p as usize))
                },
                Err(x) => Err(x),
            }
        }
    }
}

/// Reads the arguments of `test`, or of `[` (`bracket`).
pub fn parse_test(args: &[String], bracket: bool) -> (r: Result<Option<TestExpr>, TestError>)
    ensures
        r == spec_test(view_seq(args@), bracket),
        r matches Ok(Some(e)) ==> in_bounds(e, args.len() as int),
{
    let n = args.len();
    if bracket {
        if n > 0 {
            assert(view_seq(args@).last() == args[n - 1]@);
        }
        if n == 0 || !args[n - 1].as_str().eq("]") {
            return Err(TestError::MissingBracket);
        }
    }
    let words = if bracket {
        vstd::slice::slice_subrange(args, 0, n - 1)
    } else {
        args
    };
    proof {
        if bracket {
            assert(view_seq(words@) =~= view_seq(args@).drop_last());
        }
    }
    if words.len() == 0 {
        return Ok(None);
    }
    match parse_or(words, 0) {
        Ok((e, p)) => {
            if p == words.len() {
                proof {
                    lemma_in_bounds_grows(e, words.len() as int, args.len() as int);
                }
                Ok(Some(e))
            } else {
                Err(TestError::Unexpected(p))
            }
        },
        Err(x) => Err(x),
    }
}

proof fn lemma_in_bounds_grows(e: TestExpr, n: int, m: int)
    requires
        in_bounds(e, n),
        n <= m,
    ensures
        in_bounds(e, m),
    decreases e,
{
    match e {
        TestExpr::Or(a, b) => {
            lemma_in_bounds_grows(*a, n, m);
            lemma_in_bounds_grows(*b, n, m);
        },
        TestExpr::And(a, b) => {
            lemma_in_bounds_grows(*a, n, m);
            lemma_in_bounds_grows(*b, n, m);
        },
        TestExpr::Not(a) => {
            lemma_in_bounds_grows(*a, n, m);
        },
        _ => {},
    }
}

/// The file tests of `e`, from left to right.
pub fn list_file_tests(e: &TestExpr) -> (r: Vec<(FileOp, usize)>)
    ensures
        r@ == file_tests(*e),
    decreases e,
{
    match e {
        TestExpr::Or(a, b) => {
            let mut left = list_file_tests(a);
            let mut right = list_file_tests(b);
            left.append(&mut right);
            left
        },
        TestExpr::And(a, b) => {
            let mut left = list_file_tests(a);
            let mut right = list_file_tests(b);
            left.append(&mut right);
            left
        },
        TestExpr::Not(a) => list_file_tests(a),
        TestExpr::File(op, i) => {
            let mut r: Vec<(FileOp, usize)> = Vec::new();
            r.push((*op, *i));
            r
        },
        _ => Vec::new(),
    }
}

/// The value of `e`, given the answers to its file tests from index `k` on.
pub fn eval_from(e: &TestExpr, args: &[String], answers: &Vec<bool>, k: usize) -> (r: Result<
    bool,
    TestError,
>)
    requires
        in_bounds(*e, args.len() as int),
        k + file_tests(*e).len() <= answers.len(),
    ensures
        r == spec_eval(*e, view_seq(args@), answers@, k as int),
    decreases e,
{
    let ghost all = view_seq(args@);
    match e {
        TestExpr::Or(a, b) => {
            let used = list_file_tests(a).len();
            match eval_from(a, args, answers, k) {
                Ok(x) => match eval_from(b, args, answers, k + used) {
                    Ok(y) => Ok(x || y),
                    Err(x) => Err(x),
                },
                Err(x) => Err(x),
            }
        },
        TestExpr::And(a, b) => {
            let used = list_file_tests(a).len();
            match eval_from(a, args, answers, k) {
                Ok(x) => match eval_from(b, args, answers, k + used) {
                    Ok(y) => Ok(x && y),
                    Err(x) => Err(x),
                },
                Err(x) => Err(x),
            }
        },
        TestExpr::Not(a) => match eval_from(a, args, answers, k) {
            Ok(x) => Ok(!x),
            Err(x) => Err(x),
        },
        TestExpr::File(_, _) => Ok(answers[k]),
        TestExpr::Empty(i) => {
            assert(all[*i as int] == args[*i as int]@);
            Ok(args[*i].as_str().unicode_len() == 0)
        },
        TestExpr::Filled(i) => {
            assert(all[*i as int] == args[*i as int]@);
            Ok(args[*i].as_str().unicode_len() > 0)
        },
        TestExpr::Binary(i, op, j) => {
            assert(all[*i as int] == args[*i as int]@);
            assert(all[*j as int] == args[*j as int]@);
            match eval_binary(args[*i].as_str(), *op, args[*j].as_str()) {
                Some(b) => Ok(b),
                None => {
                    let left_ok = parse_i64(args[*i].as_str()).is_some();
                    Err(
                        TestError::NotAnInteger(
                            if left_ok {
                                *j
                            } else {
                                *i
                            },
                        ),
                    )
                },
            }
        },
    }
}

/// The exit status of `test`: 0 for an expression that holds, 1 for one
/// that does not and for none at all, 2 for one that cannot be read or
/// evaluated.
pub open spec fn spec_status(
    parsed: Result<Option<TestExpr>, TestError>,
    args: Seq<Seq<char>>,
    answers: Seq<bool>,
) -> i32 {
    match parsed {
        Ok(Some(e)) => match spec_eval(e, args, answers, 0) {
            Ok(true) => 0,
            Ok(false) => 1,
            Err(_) => 2,
        },
        Ok(None) => 1,
        Err(_) => 2,
    }
}

/// The exit status of `test` for what `parse_test` has read, given the
/// answers to the file tests of the expression.
pub fn status(parsed: &Result<Option<TestExpr>, TestError>, args: &[String], answers: &Vec<bool>) -> (r:
    i32)
    requires
        *parsed matches Ok(Some(e)) ==> in_bounds(e, args.len() as int) && file_tests(e).len()
            <= answers.len(),
    ensures
        r == spec_status(*parsed, view_seq(args@), answers@),
{
    match parsed {
        Ok(Some(e)) => match eval_from(e, args, answers, 0) {
            Ok(true) => 0,
            Ok(false) => 1,
            Err(_) => 2,
        },
        Ok(None) => 1,
        Err(_) => 2,
    }
}

/// A way of using a file.
#[derive(Debug, Clone, Copy, PartialEq, Eq)]
pub enum Access {
    Read,
    Write,
    Execute,
}

/// The permission bit of `access` for the owner of a file, for its group,
/// and for everybody else.
pub open spec fn access_bits(access: Access) -> (u32, u32, u32) {
    match access {
        Access::Read => (0x100, 0x20, 0x4),
        Access::Write => (0x80, 0x10, 0x2),
        Access::Execute => (0x40, 0x8, 0x1),
    }
}

/// Whether the user `uid` of the group `gid` may use in the way `access`
/// a file with the permission bits `mode` that belongs to `owner` and
/// `group`: the bit of the owner counts for the owner, the bit of the group
/// for another member of the group, the bit of the others for anybody else.
/// The superuser may read and write any file, and execute one that anybody
/// may execute.
pub open spec fn spec_permitted(
    mode: u32,
    owner: u32,
    group: u32,
    uid: u32,
    gid: u32,
    access: Access,
) -> bool {
    let bits = access_bits(access);
    if uid == 0 {
        access != Access::Execute || mode & 0x49 != 0
    } else if owner == uid {
        mode & bits.0 != 0
    } else if group == gid {
        mode & bits.1 != 0
    } else {
        mode & bits.2 != 0
    }
}

fn permitted(mode: u32, owner: u32, group: u32, uid: u32, gid: u32, access: Access) -> (r: bool)
    ensures
        r == spec_permitted(mode, owner, group, uid, gid, access),
{
    let bits: (u32, u32, u32) = match access {
        Access::Read => (0x100, 0x20, 0x4),
        Access::Write => (0x80, 0x10, 0x2),
        Access::Execute => (0x40, 0x8, 0x1),
    };
    if uid == 0 {
        match access {
            Access::Execute => mode & 0x49 != 0,
            _ => true,
        }
    } else if owner == uid {
        mode & bits.0 != 0
    } else if group == gid {
        mode & bits.1 != 0
    } else {
        mode & bits.2 != 0
    }
}

/// Whether the user may read the file.
pub fn is_readable(mode: u32, owner: u32, group: u32, uid: u32, gid: u32) -> (r: bool)
    ensures
        r == spec_permitted(mode, owner, group, uid, gid, Access::Read),
{
    permitted(mode, owner, group, uid, gid, Access::Read)
}

/// Whether the user may write the file.
pub fn is_writable(mode: u32, owner: u32, group: u32, uid: u32, gid: u32) -> (r: bool)
    ensures
        r == spec_permitted(mode, owner, group, uid, gid, Access::Write),
{
    permitted(mode, owner, group, uid, gid, Access::Write)
}

/// Whether the user may execute the file.
pub fn is_executable(mode: u32, owner: u32, group: u32, uid: u32, gid: u32) -> (r: bool)
    ensures
        r == spec_permitted(mode, owner, group, uid, gid, Access::Execute),
{
    permitted(mode, owner, group, uid, gid, Access::Execute)
}

} // verus!
