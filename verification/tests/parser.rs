use argc_parser::EventData;
use argc_parser::parse_flag_arg;
use argc_parser::parse_line;
use argc_parser::parse_option_arg;
use argc_parser::parse_positional_arg;

fn assert_parse_option_arg(data: &str) {
    assert_eq!(parse_option_arg(data).unwrap().1.to_string().as_str(), data);
}

fn assert_parse_flag_arg(data: &str) {
    assert_eq!(parse_flag_arg(data).unwrap().1.to_string().as_str(), data);
}

fn assert_parse_positional_arg(data: &str) {
    assert_eq!(
        parse_positional_arg(data).unwrap().1.to_string().as_str(),
        data
    );
}

fn assert_token(comment: &str, expected: Option<EventData>) {
    assert_eq!(parse_line(comment).unwrap().1, expected);
}

fn assert_arg(comment: &str) {
    assert!(matches!(
        parse_line(comment).unwrap().1,
        Some(EventData::Arg(_))
    ));
}

#[test]
fn test_parse_option_arg() {
    assert_parse_option_arg("-f --foo=a <FOO> A foo option");
    assert_parse_option_arg("--foo!");
    assert_parse_option_arg("--foo+");
    assert_parse_option_arg("--foo*");
    assert_parse_option_arg("--foo!");
    assert_parse_option_arg("--foo=a");
    assert_parse_option_arg("--foo[a|b]");
    assert_parse_option_arg("--foo[=a|b]");
    assert_parse_option_arg("--foo <FOO>");
    assert_parse_option_arg("--foo-abc <FOO>");
    assert_parse_option_arg("--foo=\"a b\"");
    assert_parse_option_arg("--foo[\"a|b\"|\"c]d\"]");
}

#[test]
fn test_parse_flag_arg() {
    assert_parse_flag_arg("-f --foo A foo flag");
    assert_parse_flag_arg("--foo A foo flag");
    assert_parse_flag_arg("--foo");
}

#[test]
fn test_parse_positional_arg() {
    assert_parse_positional_arg("foo A foo arg");
    assert_parse_positional_arg("foo");
    assert_parse_positional_arg("foo!");
    assert_parse_positional_arg("foo+");
    assert_parse_positional_arg("foo*");
}

#[test]
fn test_parse_line() {
    assert_token(
        "# @describe A demo cli",
        Some(EventData::Describe("A demo cli")),
    );
    assert_token("# @version 1.0.0", Some(EventData::Version("1.0.0")));
    assert_token(
        "# @author nobody <nobody@example.com>",
        Some(EventData::Author("nobody <nobody@example.com>")),
    );
    assert_token("# @cmd A subcommand", Some(EventData::Cmd("A subcommand")));
    assert_arg("# @flag -f --foo");
    assert_arg("# @option -f --foo");
    assert_arg("# @arg foo");
    assert_token("foo()", Some(EventData::Func("foo")));
    assert_token("foo ()", Some(EventData::Func("foo")));
    assert_token("foo  ()", Some(EventData::Func("foo")));
    assert_token("foo ( )", Some(EventData::Func("foo")));
    assert_token(" foo ()", Some(EventData::Func("foo")));
    assert_token("function foo", Some(EventData::Func("foo")));
    assert_token("function  foo", Some(EventData::Func("foo")));
    assert_token(" function foo", Some(EventData::Func("foo")));
    assert_token("foo=bar", None);
    assert_token("#!", None);
}
