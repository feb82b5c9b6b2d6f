use argc_parser::parse_flag_arg;
use argc_parser::parse_line;
use argc_parser::parse_option_arg;
use argc_parser::parse_positional_arg;
use argc_parser::ArgData;
use argc_parser::ArgKind;
use argc_parser::EventData;
use argc_parser::ParseError;

fn option(name: &str) -> ArgData {
    ArgData::new(name)
}

fn flag(name: &str) -> ArgData {
    let mut arg = ArgData::new(name);
    arg.kind = ArgKind::Flag;
    arg
}

fn positional(name: &str) -> ArgData {
    let mut arg = ArgData::new(name);
    arg.kind = ArgKind::Positional;
    arg
}

fn event(line: &str) -> Option<EventData> {
    parse_line(line).unwrap().1
}

#[test]
fn new_arg_is_a_bare_option() {
    let arg = ArgData::new("foo");
    assert_eq!(arg.name, "foo");
    assert_eq!(arg.kind, ArgKind::Option);
    assert_eq!(arg.summary, None);
    assert_eq!(arg.value_name, None);
    assert_eq!(arg.short, None);
    assert_eq!(arg.choices, None);
    assert!(!arg.multiple);
    assert!(!arg.required);
    assert_eq!(arg.default, None);
    assert!(!arg.is_positional());
    assert!(positional("foo").is_positional());
    assert!(!flag("foo").is_positional());
}

#[test]
fn kinds_are_shown_as_tags() {
    assert_eq!(ArgKind::Flag.to_string(), "@flag");
    assert_eq!(ArgKind::Option.to_string(), "@option");
    assert_eq!(ArgKind::Positional.to_string(), "@arg");
}

#[test]
fn option_with_all_parts() {
    let mut expected = option("foo");
    expected.short = Some('f');
    expected.default = Some("a");
    expected.value_name = Some("FOO");
    expected.summary = Some("A foo option");
    let (rest, arg) = parse_option_arg("-f --foo=a <FOO> A foo option").unwrap();
    assert_eq!(rest, "");
    assert_eq!(arg, expected);
    assert_eq!(
        parse_option_arg(" \t-f--foo=a\t<FOO>   A foo option \u{3000}").unwrap().1,
        expected
    );
}

#[test]
fn option_marks() {
    let arg = parse_option_arg("--foo!").unwrap().1;
    assert!(arg.required && !arg.multiple);
    let arg = parse_option_arg("--foo*").unwrap().1;
    assert!(!arg.required && arg.multiple);
    let arg = parse_option_arg("--foo+").unwrap().1;
    assert!(arg.required && arg.multiple);
    assert_eq!(parse_option_arg("--foo").unwrap().1, option("foo"));
    assert_eq!(parse_option_arg("--foo!!"), Err(ParseError));
}

#[test]
fn option_defaults() {
    let mut expected = option("foo");
    expected.default = Some("");
    assert_eq!(parse_option_arg("--foo=").unwrap().1, expected);
    assert_eq!(parse_option_arg("--foo=''").unwrap().1, expected);
    assert_eq!(parse_option_arg("--foo=\"\"").unwrap().1, expected);
    expected.default = Some("a b");
    assert_eq!(parse_option_arg("--foo='a b'").unwrap().1, expected);
    expected.default = Some("it\\'s");
    assert_eq!(parse_option_arg("--foo='it\\'s'").unwrap().1, expected);
    expected.default = Some("'open");
    assert_eq!(parse_option_arg("--foo='open").unwrap().1, expected);
    expected.default = Some("'a\\b'");
    assert_eq!(parse_option_arg("--foo='a\\b'").unwrap().1, expected);
    expected.default = Some("=x");
    assert_eq!(parse_option_arg("--foo==x").unwrap().1, expected);
    assert_eq!(parse_option_arg("--foo='a'b"), Err(ParseError));
}

#[test]
fn option_choices() {
    let mut expected = option("foo");
    expected.choices = Some(vec!["a", "b", "c"]);
    assert_eq!(parse_option_arg("--foo[a|b|c]").unwrap().1, expected);
    expected.default = Some("a");
    assert_eq!(parse_option_arg("--foo[=a|b|c]").unwrap().1, expected);
    expected.default = None;
    expected.choices = Some(vec!["", ""]);
    assert_eq!(parse_option_arg("--foo[|]").unwrap().1, expected);
    expected.choices = Some(vec!["a|b", "c]d"]);
    assert_eq!(parse_option_arg("--foo['a|b'|\"c]d\"]").unwrap().1, expected);
    expected.choices = Some(vec!["a b", "=c"]);
    assert_eq!(parse_option_arg("--foo[a b|=c]").unwrap().1, expected);
    assert_eq!(parse_option_arg("--foo[a]"), Err(ParseError));
    assert_eq!(parse_option_arg("--foo[]"), Err(ParseError));
    assert_eq!(parse_option_arg("--foo[a|b"), Err(ParseError));
    assert_eq!(parse_option_arg("--foo['a'b|c]"), Err(ParseError));
    assert_eq!(parse_option_arg("--foo[a|b]c"), Err(ParseError));
}

#[test]
fn option_value_notations() {
    let mut expected = option("foo");
    expected.value_name = Some("FILE-PATH");
    assert_eq!(parse_option_arg("--foo <FILE-PATH>").unwrap().1, expected);
    expected.value_name = Some("");
    assert_eq!(parse_option_arg("--foo <>").unwrap().1, expected);
    expected.value_name = None;
    expected.summary = Some("<file> in");
    assert_eq!(parse_option_arg("--foo <file> in").unwrap().1, expected);
    expected.summary = Some("<FOO");
    assert_eq!(parse_option_arg("--foo <FOO").unwrap().1, expected);
    assert_eq!(parse_option_arg("--foo<FOO>"), Err(ParseError));
    assert_eq!(parse_option_arg("--foo <FOO>x"), Err(ParseError));
}

#[test]
fn options_need_dashes() {
    assert_eq!(parse_option_arg("foo"), Err(ParseError));
    assert_eq!(parse_option_arg("-f"), Err(ParseError));
    assert_eq!(parse_option_arg("-1 --foo"), Err(ParseError));
    assert_eq!(parse_option_arg("-\u{e9} --foo"), Err(ParseError));
    assert_eq!(parse_option_arg(""), Err(ParseError));
    assert_eq!(parse_option_arg("--").unwrap().1, option(""));
}

#[test]
fn flags() {
    let mut expected = flag("foo");
    expected.short = Some('F');
    expected.summary = Some("\u{e9}t\u{e9}");
    let (rest, arg) = parse_flag_arg("-F --foo \u{a0}\u{e9}t\u{e9}\u{2003}").unwrap();
    assert_eq!(rest, "");
    assert_eq!(arg, expected);
    assert_eq!(parse_flag_arg("--foo=a"), Err(ParseError));
    assert_eq!(parse_flag_arg("--foo!"), Err(ParseError));
    assert_eq!(parse_flag_arg("-f foo"), Err(ParseError));
    assert_eq!(parse_flag_arg("--foo ").unwrap().1, flag("foo"));
}

#[test]
fn positionals() {
    let mut expected = positional("foo");
    expected.required = true;
    expected.multiple = true;
    expected.summary = Some("A foo arg");
    let (rest, arg) = parse_positional_arg("  foo+ A foo arg").unwrap();
    assert_eq!(rest, "");
    assert_eq!(arg, expected);
    assert_eq!(parse_positional_arg("").unwrap().1, positional(""));
    assert_eq!(parse_positional_arg("foo=a"), Err(ParseError));
    assert_eq!(parse_positional_arg("foo+!"), Err(ParseError));
    assert_eq!(parse_positional_arg("foo\u{a0}x"), Err(ParseError));
}

#[test]
fn tags_with_text() {
    assert_eq!(event("#@cmd"), Some(EventData::Cmd("")));
    assert_eq!(event("# \t @cmd\t x "), Some(EventData::Cmd("x")));
    assert_eq!(event("# @describe  "), Some(EventData::Describe("")));
    assert_eq!(event("# @version\t1"), Some(EventData::Version("1")));
    assert_eq!(event("# @author me"), Some(EventData::Author("me")));
}

#[test]
fn unknown_and_invalid_tags_are_unexpected() {
    assert_eq!(event("# @cmdx y"), Some(EventData::Unexpect("cmdx")));
    assert_eq!(event("# @describe:"), Some(EventData::Unexpect("describe")));
    assert_eq!(event("# @foo-bar baz"), Some(EventData::Unexpect("foo-bar")));
    assert_eq!(event("# @option foo"), Some(EventData::Unexpect("option")));
    assert_eq!(event("# @option"), Some(EventData::Unexpect("option")));
    assert_eq!(event("# @flag --foo!"), Some(EventData::Unexpect("flag")));
    assert_eq!(event("# @arg a=b"), Some(EventData::Unexpect("arg")));
    assert_eq!(event("# @"), Some(EventData::Unexpect("")));
    assert_eq!(parse_line("# @foo bar").unwrap().0, " bar");
}

#[test]
fn lines_that_declare_nothing() {
    assert_eq!(event(""), None);
    assert_eq!(event("# a comment"), None);
    assert_eq!(event(" # @cmd x"), None);
    assert_eq!(event("## @cmd x"), None);
    assert_eq!(event("foo ("), None);
    assert_eq!(event("foo bar()"), None);
    assert_eq!(event("functional"), None);
    assert_eq!(parse_line("foo=bar").unwrap().0, "foo=bar");
}

#[test]
fn functions() {
    assert_eq!(event("foo-bar_1(){"), Some(EventData::Func("foo-bar_1")));
    assert_eq!(event("function foo() {"), Some(EventData::Func("foo")));
    assert_eq!(event("function()"), Some(EventData::Func("function")));
    assert_eq!(event("function ()"), Some(EventData::Func("")));
    assert_eq!(event("()"), Some(EventData::Func("")));
    assert_eq!(event("\t function\tfoo"), Some(EventData::Func("foo")));
    assert_eq!(parse_line("foo ( ) {").unwrap().0, " {");
    assert_eq!(parse_line("function foo() {").unwrap().0, "() {");
}

#[test]
fn leading_blanks_are_skipped() {
    assert_eq!(event(" \t foo()"), event("foo()"));
    assert_eq!(parse_flag_arg(" \t-f --foo x"), parse_flag_arg("-f --foo x"));
    assert_eq!(parse_option_arg(" \t--foo=a"), parse_option_arg("--foo=a"));
    assert_eq!(parse_positional_arg(" \tfoo!"), parse_positional_arg("foo!"));
}

#[test]
fn the_rest_ends_the_line() {
    for line in ["# @foo bar", "foo() {", "function foo bar", "x = y", "# @cmd x"] {
        assert!(line.ends_with(parse_line(line).unwrap().0));
    }
}

#[test]
fn blanks_around_functions_and_tags() {
    for blanks in ["", " ", "\t", " \t  "] {
        let line = format!("{}foo{}({}) {{", blanks, blanks, blanks);
        assert_eq!(parse_line(&line), Ok((" {", Some(EventData::Func("foo")))));
        let line = format!("{}function {}foo()", blanks, blanks);
        assert_eq!(parse_line(&line), Ok(("()", Some(EventData::Func("foo")))));
        let line = format!("#{}@author {}me{}", blanks, blanks, blanks);
        assert_eq!(parse_line(&line), Ok(("", Some(EventData::Author("me")))));
    }
}

#[test]
fn blanks_before_a_tag() {
    for body in ["cmd x", "option -f --foo=a x", "arg a=b", "what else", "", " cmd"] {
        for blanks in ["", " ", "\t", "  \t "] {
            let line = format!("#{}@{}", blanks, body);
            let plain = format!("#@{}", body);
            assert_eq!(parse_line(&line), parse_line(&plain));
        }
    }
}

#[test]
fn blanks_behind_an_argument_tag() {
    for (one, more) in [
        ("# @option --foo=a x", "# @option \t  --foo=a x"),
        ("# @flag -f --foo", "# @flag\t\t-f --foo"),
        ("# @arg foo! x", "# @arg    foo! x"),
    ] {
        assert!(matches!(event(one), Some(EventData::Arg(_))));
        assert_eq!(event(more), event(one));
    }
}
