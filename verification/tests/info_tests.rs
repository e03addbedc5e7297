use cerf::builtins::info::{history_lines, prompt, type_of};
use cerf::builtins::read::{read_fields, read_request, ReadError, ReadRequest};
use cerf::builtins::test_cmd::{
    eval_binary, eval_from, is_binary_op, is_executable, is_readable, is_writable,
    list_file_tests, parse_and, parse_not, parse_or, parse_primary, parse_test, status, BinOp,
    FileOp, TestError, TestExpr,
};
use cerf::builtins::Line;
use cerf::strmap::StrMap;
use cerf::text::{parse_i64, parse_number, str_lt};

fn strings(items: &[&str]) -> Vec<String> {
    items.iter().map(|s| s.to_string()).collect()
}

/// The exit status of `test` with these arguments, every file test
/// answered with `answer`.
fn test(args: &[&str], answer: bool) -> i32 {
    let args = strings(args);
    let parsed = parse_test(&args, false);
    let answers = match &parsed {
        Ok(Some(e)) => vec![answer; list_file_tests(e).len()],
        _ => vec![],
    };
    status(&parsed, &args, &answers)
}

#[test]
fn strings_are_tested() {
    assert_eq!(test(&[], true), 1);
    assert_eq!(test(&["x"], true), 0);
    assert_eq!(test(&[""], true), 1);
    assert_eq!(test(&["-n", "x"], true), 0);
    assert_eq!(test(&["-n", ""], true), 1);
    assert_eq!(test(&["-z", ""], true), 0);
    assert_eq!(test(&["-z", "x"], true), 1);
    assert_eq!(test(&["a", "=", "a"], true), 0);
    assert_eq!(test(&["a", "==", "b"], true), 1);
    assert_eq!(test(&["a", "!=", "b"], true), 0);
    assert_eq!(test(&["-n"], true), 2);
}

#[test]
fn integers_are_compared() {
    assert_eq!(test(&["2", "-eq", "2"], true), 0);
    assert_eq!(test(&["2", "-ne", "2"], true), 1);
    assert_eq!(test(&["-3", "-lt", "+2"], true), 0);
    assert_eq!(test(&["10", "-le", "9"], true), 1);
    assert_eq!(test(&["10", "-gt", "9"], true), 0);
    assert_eq!(test(&["9", "-ge", "9"], true), 0);
    assert_eq!(test(&["x", "-eq", "1"], true), 2);
    assert_eq!(test(&["1", "-eq", ""], true), 2);
    assert_eq!(test(&["9223372036854775808", "-eq", "1"], true), 2);
    assert_eq!(test(&["-9223372036854775808", "-lt", "9223372036854775807"], true), 0);
    assert_eq!(test(&["1", "-eq"], true), 2);
}

#[test]
fn logic_is_combined() {
    assert_eq!(test(&["!", "x"], true), 1);
    assert_eq!(test(&["!", "!", "x"], true), 0);
    assert_eq!(test(&["x", "-a", ""], true), 1);
    assert_eq!(test(&["x", "-o", ""], true), 0);
    assert_eq!(test(&["", "-o", "x", "-a", ""], true), 1);
    assert_eq!(test(&["(", "", "-o", "x", ")", "-a", "y"], true), 0);
    assert_eq!(test(&["(", "x"], true), 2);
    assert_eq!(test(&["x", "y"], true), 2);
    assert_eq!(test(&["x", "-a"], true), 2);
    assert_eq!(test(&["!"], true), 2);
}

#[test]
fn file_tests_take_their_answers() {
    assert_eq!(test(&["-f", "/etc/passwd"], true), 0);
    assert_eq!(test(&["-f", "/etc/passwd"], false), 1);
    assert_eq!(test(&["!", "-d", "x"], false), 0);
    assert_eq!(test(&["-e"], true), 2);
    let args = strings(&["-e", "a", "-a", "(", "-d", "b", "-o", "-L", "c", ")"]);
    let parsed = parse_test(&args, false);
    let e = parsed.as_ref().unwrap().as_ref().unwrap();
    assert_eq!(
        list_file_tests(e),
        vec![(FileOp::Exists, 1), (FileOp::IsDir, 5), (FileOp::Symlink, 8)]
    );
    assert_eq!(status(&parsed, &args, &vec![true, false, true]), 0);
    assert_eq!(status(&parsed, &args, &vec![true, false, false]), 1);
    assert_eq!(status(&parsed, &args, &vec![false, true, true]), 1);
    assert_eq!(eval_from(e, &args, &vec![true, true, false], 0), Ok(true));
}

#[test]
fn unary_operator_before_a_comparison_is_a_word() {
    let args = strings(&["-f", "=", "-f"]);
    assert_eq!(parse_primary(&args, 0), Ok((TestExpr::File(FileOp::IsFile, 1), 2)));
    assert_eq!(parse_test(&args, false), Err(TestError::Unexpected(2)));
    let args = strings(&["-n", "x", "=", "y"]);
    assert_eq!(parse_primary(&args, 0), Ok((TestExpr::Filled(0), 1)));
    assert_eq!(parse_test(&args, false), Err(TestError::Unexpected(1)));
    let args = strings(&["-z", "=", "="]);
    assert_eq!(parse_test(&args, false), Ok(Some(TestExpr::Binary(0, BinOp::StrEq, 2))));
    let args = strings(&["-z", "="]);
    assert_eq!(parse_test(&args, false), Ok(Some(TestExpr::Empty(1))));
}

#[test]
fn bracket_needs_its_closing() {
    assert_eq!(parse_test(&strings(&["x"]), true), Err(TestError::MissingBracket));
    assert_eq!(parse_test(&[], true), Err(TestError::MissingBracket));
    assert_eq!(parse_test(&strings(&["]"]), true), Ok(None));
    assert_eq!(parse_test(&strings(&["x", "]"]), true), Ok(Some(TestExpr::Filled(0))));
    assert_eq!(parse_test(&strings(&["]"]), false), Ok(Some(TestExpr::Filled(0))));
}

#[test]
fn parsers_of_each_level() {
    let args = strings(&["!", "a", "-a", "b", "-o", "c"]);
    assert_eq!(parse_primary(&args, 1), Ok((TestExpr::Filled(1), 2)));
    assert_eq!(parse_not(&args, 0), Ok((TestExpr::Not(Box::new(TestExpr::Filled(1))), 2)));
    assert_eq!(
        parse_and(&args, 0),
        Ok((
            TestExpr::And(
                Box::new(TestExpr::Not(Box::new(TestExpr::Filled(1)))),
                Box::new(TestExpr::Filled(3))
            ),
            4
        ))
    );
    let (e, end) = parse_or(&args, 0).unwrap();
    assert_eq!(end, 6);
    assert!(matches!(e, TestExpr::Or(_, _)));
    assert_eq!(parse_primary(&args, 6), Err(TestError::ExpectedExpression));
    assert_eq!(parse_primary(&strings(&["(", "a"]), 0), Err(TestError::MissingParen));
    assert_eq!(parse_primary(&strings(&["-d"]), 0), Err(TestError::ExpectedArgument(0)));
    assert_eq!(parse_primary(&strings(&["a", "="]), 0), Err(TestError::ExpectedArgument(1)));
}

#[test]
fn comparison_operators() {
    for op in ["=", "==", "!=", "-eq", "-ne", "-lt", "-le", "-gt", "-ge"] {
        assert!(is_binary_op(op));
    }
    for op in ["-a", "-o", "<", "", "-f", "eq"] {
        assert!(!is_binary_op(op));
    }
    assert_eq!(eval_binary("a", BinOp::StrEq, "a"), Some(true));
    assert_eq!(eval_binary("1", BinOp::StrEq, "01"), Some(false));
    assert_eq!(eval_binary("1", BinOp::IntEq, "01"), Some(true));
    assert_eq!(eval_binary("1", BinOp::IntLt, "x"), None);
    assert_eq!(eval_binary("-5", BinOp::IntGe, "-5"), Some(true));
}

#[test]
fn not_an_integer_names_the_operand() {
    let args = strings(&["1", "-eq", "x"]);
    let parsed = parse_test(&args, false);
    let e = parsed.as_ref().unwrap().as_ref().unwrap();
    assert_eq!(eval_from(e, &args, &vec![], 0), Err(TestError::NotAnInteger(2)));
    let args = strings(&["y", "-eq", "x"]);
    let parsed = parse_test(&args, false);
    let e = parsed.as_ref().unwrap().as_ref().unwrap();
    assert_eq!(eval_from(e, &args, &vec![], 0), Err(TestError::NotAnInteger(0)));
}

#[test]
fn numbers_are_parsed_like_the_standard_library_does() {
    for s in ["0", "7", "+7", "-7", "007", "", "+", "-", "1x", " 1", "9223372036854775807",
        "9223372036854775808", "-9223372036854775808", "-9223372036854775809", "--1", "1-"]
    {
        assert_eq!(parse_i64(s), s.parse::<i64>().ok(), "{:?}", s);
    }
    let v: Vec<char> = "x123y".chars().collect();
    assert_eq!(parse_number(&v, 1, 4), Some(123));
    assert_eq!(parse_number(&v, 1, 5), None);
    assert_eq!(parse_number(&v, 2, 2), None);
    let big: Vec<char> = "18446744073709551616".chars().collect();
    assert_eq!(parse_number(&big, 0, big.len()), None);
    assert_eq!(parse_number(&big, 0, big.len() - 1), Some(1844674407370955161));
}

#[test]
fn strings_are_ordered_like_the_standard_library_does() {
    let words = ["", "a", "A", "ab", "b", "aa", "é", "z", "~", "a b", "Z", "10", "9"];
    for a in words {
        for b in words {
            assert_eq!(str_lt(a, b), a < b, "{:?} {:?}", a, b);
        }
    }
}

#[test]
fn read_options() {
    assert_eq!(
        read_request(&strings(&["-r", "-p", "> ", "a", "-b"])),
        Ok(ReadRequest { raw: true, prompt: Some(2), names_from: 3 })
    );
    assert_eq!(read_request(&[]), Ok(ReadRequest { raw: false, prompt: None, names_from: 0 }));
    assert_eq!(
        read_request(&strings(&["-s", "-p", "-r"])),
        Ok(ReadRequest { raw: false, prompt: Some(2), names_from: 3 })
    );
    assert_eq!(read_request(&strings(&["-p"])), Err(ReadError::MissingPrompt));
    assert_eq!(read_request(&strings(&["-r", "-x", "a"])), Err(ReadError::InvalidOption(1)));
    assert_eq!(read_request(&strings(&["-"])), Err(ReadError::InvalidOption(0)));
}

#[test]
fn line_is_split_among_the_variables() {
    let ifs = " \t\n";
    assert_eq!(read_fields("  one two  three four ", 3, ifs), strings(&["one", "two", "three four "]));
    assert_eq!(read_fields("  all of it ", 1, ifs), strings(&["all of it "]));
    assert_eq!(read_fields("one", 3, ifs), strings(&["one", "", ""]));
    assert_eq!(read_fields("", 2, ifs), strings(&["", ""]));
    assert!(read_fields("x", 0, ifs).is_empty());
    assert_eq!(read_fields("a:b::c", 3, ":"), strings(&["a", "b", ":c"]));
    assert_eq!(read_fields(" a:b", 1, ":"), strings(&[" a:b"]));
    assert_eq!(read_fields("a:b", 3, ":"), strings(&["a", "b", ""]));
    assert_eq!(read_fields("a,b;c d", 4, ";,"), strings(&["a", "b", "c d", ""]));
}

#[test]
fn history_is_numbered() {
    assert_eq!(history_lines(&strings(&["ls", "echo hi"])), strings(&["  1  ls", "  2  echo hi"]));
    assert!(history_lines(&vec![]).is_empty());
}

#[test]
fn type_describes_a_name() {
    let mut aliases = StrMap::new();
    aliases.insert("ll", "ls -la");
    assert_eq!(type_of("ll", &aliases, Some("/bin/ll")), Line::Out("ll is aliased to `ls -la`".to_string()));
    assert_eq!(type_of("dir.cd", &aliases, None), Line::Out("dir.cd is a shell builtin".to_string()));
    assert_eq!(type_of("ls", &aliases, Some("/bin/ls")), Line::Out("ls is /bin/ls".to_string()));
    assert_eq!(type_of("nope", &aliases, None), Line::Diag("cerf: type: nope: not found".to_string()));
}

#[test]
fn prompt_shortens_the_home_directory() {
    assert_eq!(prompt("/home/al", Some("/home/al")), "cf ~ > ");
    assert_eq!(prompt("/home/al/src/x", Some("/home/al")), "cf ~/src/x > ");
    assert_eq!(prompt("/home/al/src", Some("/home/al/")), "cf ~/src > ");
    assert_eq!(prompt("/home/alice", Some("/home/al")), "cf /home/alice > ");
    assert_eq!(prompt("/tmp", Some("/home/al")), "cf /tmp > ");
    assert_eq!(prompt("/tmp", Some("")), "cf /tmp > ");
    assert_eq!(prompt("/tmp", None), "cf /tmp > ");
}

#[test]
fn permission_bits_are_read_for_the_right_class() {
    // mode 0o640, owner 10, group 20
    assert!(is_readable(0o640, 10, 20, 10, 99));
    assert!(is_writable(0o640, 10, 20, 10, 99));
    assert!(!is_executable(0o640, 10, 20, 10, 99));
    assert!(is_readable(0o640, 10, 20, 11, 20));
    assert!(!is_writable(0o640, 10, 20, 11, 20));
    assert!(!is_readable(0o640, 10, 20, 11, 21));
    // The owner is held to the owner's bits even where others may do more.
    assert!(!is_readable(0o077, 10, 20, 10, 20));
    assert!(is_readable(0o004, 10, 20, 11, 21));
    assert!(is_executable(0o001, 10, 20, 11, 21));
    // The superuser.
    assert!(is_readable(0, 10, 20, 0, 0));
    assert!(is_writable(0, 10, 20, 0, 0));
    assert!(!is_executable(0o666, 10, 20, 0, 0));
    assert!(is_executable(0o010, 10, 20, 0, 0));
}
