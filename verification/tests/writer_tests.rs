use cerf::parser::{parse, parse_input, ParsedLine};
use cerf::strmap::StrMap;
use cerf::writer::write_line;

fn written(line: &str) -> String {
    write_line(&parse_input(line, &StrMap::new()).unwrap())
}

#[test]
fn plain_lines_are_written_plainly() {
    assert_eq!(written("ls -la"), "ls -la");
    assert_eq!(written("  cat   f|sort  | uniq -c  "), "cat f | sort | uniq -c");
    assert_eq!(written("make&&make install||echo failed;ls"), "make && make install || echo failed ; ls");
    assert_eq!(written("sleep 60&"), "sleep 60 &");
    assert_eq!(written("a & b"), "a & b");
    assert_eq!(written("! true"), "! true");
    assert_eq!(written("ls ;"), "ls");
}

#[test]
fn redirections_are_written_before_arguments() {
    assert_eq!(written("sort -r <in >>out x"), "sort < in >> out -r x");
    assert_eq!(written("FOO=1 BAR= cmd arg > f"), "FOO=1 BAR= cmd > f arg");
    assert_eq!(written("A=1 B=2"), "A=1 B=2");
    assert_eq!(written("A=1 >f arg"), "A=1 > f arg");
}

#[test]
fn words_are_quoted_where_they_must_be() {
    assert_eq!(written("echo \"a b\" 'c'"), "echo \"a b\" \"c\"");
    assert_eq!(written("echo 'say \"hi\"'"), "echo 'say \"hi\"'");
    assert_eq!(written("echo a\"b c\""), "echo \"\"\"ab c\"");
    assert_eq!(written("echo \"\"''"), "echo \"\"\"\"");
    assert_eq!(written("echo \"it's\"'\"'"), "echo \"\"\"it's\"'\"'");
    assert_eq!(written("\"FOO=bar\" x"), "\"\"\"FOO=bar\" x");
    assert_eq!(written("'!' x"), "\"\"\"!\" x");
    assert_eq!(written("'#x'"), "\"\"\"#x\"");
    assert_eq!(written("A='b c'"), "A=\"\"\"b c\"");
}

#[test]
fn dollars_are_doubled() {
    assert_eq!(
        written("echo $$HOME cost:$$5 $"),
        "echo \"\"\"$$HOME\" \"\"\"cost:$$5\" \"\"\"$$\""
    );
}

fn reads_back(line: &str, vars: &StrMap) {
    let first = parse(line, vars);
    let entries = match &first {
        ParsedLine::Commands(entries) => entries,
        other => panic!("{:?} is read as {:?}", line, other),
    };
    let text = write_line(entries);
    let mut later = StrMap::new();
    later.insert("HOME", "/elsewhere");
    later.insert("X", "changed");
    assert_eq!(parse(&text, &later), first, "{:?} written as {:?}", line, text);
    assert_eq!(write_line(entries), write_line(parse_input(&text, &later).as_ref().unwrap()));
}

#[test]
fn what_is_read_is_written_so_that_it_reads_back() {
    let mut vars = StrMap::new();
    vars.insert("HOME", "/home/al");
    vars.insert("X", "two words");
    vars.insert("Q", "a\"b'c");
    for line in [
        "ls -la",
        "echo hello world",
        "false && echo x ; true || echo y ; echo z",
        "! true",
        "FOO=bar; echo $FOO",
        "echo hi > /tmp/out.txt ; echo bye >> /tmp/out.txt",
        "sleep 60 &",
        "cat < in.txt | sort > out.txt",
        "A=1 B=\"x y\" C= cmd 'q r' \"s\"t u'v w' >o <i >>a",
        "A=1 > f",
        "A=1 >f arg 'b c'",
        "echo $X \"$X\" '$X' $$X ${HOME}/bin",
        "echo $Q\"",
        "echo \"\" '' \"\"\"\" a\"\"",
        "'ls' \"-l\"",
        "\"A=1\" 'x=y' !x ! ! a!",
        "! ls | grep -v '|' || ! 'a b' & c & d ;",
        "e\u{a0}x \u{a0}y z\u{a0} '\u{a0}'",
        "echo [a-z]* ? \\ back`tick (paren) {brace} # hash",
        "echo $ $$ $$$ $1 $- \"$\" '$'",
        "x ; y & z | w && v || u &",
        "\"!\" \"#\" '&' ';' '|' '>' '<'",
        "a=b=c d==e =f g=",
    ] {
        reads_back(line, &vars);
    }
}
