use argc_parser::parse_flag_arg;
use argc_parser::parse_line;
use argc_parser::parse_option_arg;
use argc_parser::parse_positional_arg;
use argc_parser::ArgData;
use argc_parser::ArgKind;
use argc_parser::EventData;
use nom::branch::alt;
use nom::bytes::complete::escaped;
use nom::bytes::complete::tag;
use nom::character::complete::char;
use nom::character::streaming::none_of;
use nom::sequence::delimited;
use nom::IResult;

fn read_back<'a>(text: &'a str, kind: &ArgKind) -> Option<ArgData<'a>> {
    let read = match kind {
        ArgKind::Flag => parse_flag_arg(text),
        ArgKind::Option => parse_option_arg(text),
        ArgKind::Positional => parse_positional_arg(text),
    };
    read.ok().map(|(_, arg)| arg)
}

fn assert_read_back(arg: &ArgData, text: &str) {
    assert_eq!(arg.to_string(), text);
    assert_eq!(read_back(text, &arg.kind).as_ref(), Some(arg));
    let declaration = format!("# {} {}", arg.kind.to_string(), text);
    let (rest, event) = parse_line(&declaration).unwrap();
    assert_eq!(rest, "");
    assert_eq!(event, Some(EventData::Arg(arg.clone())));
}

fn assert_not_read_back(arg: &ArgData, text: &str) {
    assert_eq!(arg.to_string(), text);
    assert_ne!(read_back(text, &arg.kind).as_ref(), Some(arg));
}

#[test]
fn flags_are_read_back() {
    let mut arg = ArgData::new("foo");
    arg.kind = ArgKind::Flag;
    assert_read_back(&arg, "--foo");
    arg.short = Some('f');
    assert_read_back(&arg, "-f --foo");
    arg.summary = Some("A foo flag");
    assert_read_back(&arg, "-f --foo A foo flag");
    arg.summary = Some("A foo flag ");
    assert_not_read_back(&arg, "-f --foo A foo flag ");
    arg.summary = Some("");
    assert_not_read_back(&arg, "-f --foo ");
    arg.summary = None;
    arg.short = Some('1');
    assert_not_read_back(&arg, "-1 --foo");
    arg.short = Some('\u{1f600}');
    assert_not_read_back(&arg, "-\u{1f600} --foo");
    arg.short = None;
    arg.required = true;
    assert_not_read_back(&arg, "--foo");
    arg.required = false;
    arg.name = "foo bar";
    assert_not_read_back(&arg, "--foo bar");
}

#[test]
fn positionals_are_read_back() {
    let mut arg = ArgData::new("foo");
    arg.kind = ArgKind::Positional;
    arg.summary = Some("A foo arg");
    assert_read_back(&arg, "foo A foo arg");
    arg.multiple = true;
    assert_read_back(&arg, "foo* A foo arg");
    arg.required = true;
    assert_read_back(&arg, "foo+ A foo arg");
    arg.multiple = false;
    assert_read_back(&arg, "foo! A foo arg");
    arg.name = "";
    assert_read_back(&arg, "! A foo arg");
    arg.required = false;
    assert_not_read_back(&arg, " A foo arg");
    arg.summary = None;
    assert_read_back(&arg, "");
}

#[test]
fn options_are_read_back() {
    let mut arg = ArgData::new("foo");
    assert_read_back(&arg, "--foo");
    arg.required = true;
    arg.multiple = true;
    assert_read_back(&arg, "--foo+");
    arg.required = false;
    arg.multiple = false;
    arg.short = Some('f');
    arg.value_name = Some("FOO");
    arg.summary = Some("<BAR> x");
    assert_read_back(&arg, "-f --foo <FOO> <BAR> x");
    arg.value_name = None;
    assert_not_read_back(&arg, "-f --foo <BAR> x");
    arg.value_name = Some("foo");
    arg.summary = None;
    assert_not_read_back(&arg, "-f --foo <foo>");
}

#[test]
fn defaults_are_read_back() {
    let mut arg = ArgData::new("foo");
    arg.default = Some("a");
    assert_read_back(&arg, "--foo=a");
    arg.default = Some("a b");
    arg.value_name = Some("FOO");
    arg.summary = Some("x");
    assert_read_back(&arg, "--foo=\"a b\" <FOO> x");
    arg.default = Some("a \\\"b");
    assert_read_back(&arg, "--foo=\"a \\\"b\" <FOO> x");
    arg.default = Some("a \"b");
    assert_not_read_back(&arg, "--foo=\"a \"b\" <FOO> x");
    arg.default = Some("'a");
    assert_read_back(&arg, "--foo='a <FOO> x");
    arg.summary = Some("it's");
    assert_not_read_back(&arg, "--foo='a <FOO> it's");
    arg.default = Some("a");
    arg.required = true;
    assert_not_read_back(&arg, "--foo=a <FOO> it's");
}

#[test]
fn choices_are_read_back() {
    let mut arg = ArgData::new("foo");
    arg.choices = Some(vec!["a", "b"]);
    assert_read_back(&arg, "--foo[a|b]");
    arg.default = Some("a");
    assert_read_back(&arg, "--foo[=a|b]");
    arg.default = Some("b");
    assert_not_read_back(&arg, "--foo[=a|b]");
    arg.default = None;
    arg.choices = Some(vec!["=a", "b"]);
    assert_not_read_back(&arg, "--foo[=a|b]");
    arg.default = Some("=a");
    assert_read_back(&arg, "--foo[==a|b]");
    arg.default = None;
    arg.choices = Some(vec!["a|b", "c]d", ""]);
    assert_read_back(&arg, "--foo[\"a|b\"|\"c]d\"|]");
    arg.choices = Some(vec!["a", "'b"]);
    assert_read_back(&arg, "--foo[a|'b]");
    arg.choices = Some(vec!["'a", "b'"]);
    assert_not_read_back(&arg, "--foo['a|b']");
    arg.choices = Some(vec!["a"]);
    assert_not_read_back(&arg, "--foo[a]");
    arg.choices = Some(vec![]);
    assert_not_read_back(&arg, "--foo[]");
}

#[test]
fn joined_choices_are_read_back() {
    for choices in [
        vec!["a", "b"],
        vec!["b", "a", "b", "b"],
        vec!["", "", ""],
        vec!["a b", "=c", "d'e\"", "\u{e9}"],
    ] {
        let joined = choices.join("|");
        let input = format!("--foo[{}]", joined);
        let arg = parse_option_arg(&input).unwrap().1;
        assert_eq!(arg.choices, Some(choices.clone()));
        assert_eq!(arg.default, None);
        let input = format!("--foo[={}]", joined);
        let arg = parse_option_arg(&input).unwrap().1;
        assert_eq!(arg.choices, Some(choices.clone()));
        assert_eq!(arg.default, Some(choices[0]));
    }
    assert!(parse_option_arg("--foo[a]").is_err());
    assert!(parse_option_arg("--foo[=a]").is_err());
    assert!(parse_option_arg("--foo[]").is_err());
    assert!(parse_option_arg("--foo[=]").is_err());
}

#[test]
fn rewriting_is_stable() {
    let flag = parse_flag_arg(" \t-f--foo   x \u{3000}").unwrap().1;
    assert_eq!(flag.to_string(), "-f --foo x");
    assert_read_back(&flag, "-f --foo x");
    let positional = parse_positional_arg("  foo!\t\tx ").unwrap().1;
    assert_read_back(&positional, "foo! x");
    let option = parse_option_arg("-f--foo['a|b'|'c'] \t <X>  y ").unwrap().1;
    assert_read_back(&option, "-f --foo[\"a|b\"|c] <X> y");
    let option = parse_option_arg("--foo \u{a0}<X> y").unwrap().1;
    assert_not_read_back(&option, "--foo <X> y");
}

fn nom_single_quoted(input: &str) -> IResult<&str, &str> {
    delimited(
        char('\''),
        alt((escaped(none_of("\\'"), '\\', tag("'")), tag(""))),
        char('\''),
    )(input)
}

fn nom_double_quoted(input: &str) -> IResult<&str, &str> {
    delimited(
        char('"'),
        alt((escaped(none_of("\\\""), '\\', tag("\"")), tag(""))),
        char('"'),
    )(input)
}

fn all_texts(length: usize) -> Vec<String> {
    let alphabet = ['\'', '\\', 'a', '"', '\u{e9}'];
    let mut texts: Vec<String> = vec![String::new()];
    let mut start = 0;
    for _ in 0..length {
        let end = texts.len();
        for i in start..end {
            for c in alphabet {
                let mut longer = texts[i].clone();
                longer.push(c);
                texts.push(longer);
            }
        }
        start = end;
    }
    texts
}

fn assert_quoted(value: &str, quoted: IResult<&str, &str>) {
    let input = format!("--foo={}", value);
    let read = parse_option_arg(&input)
        .ok()
        .map(|(_, arg)| arg.default.unwrap());
    let expected = match quoted {
        Ok(("", content)) => Some(content),
        Ok(_) => None,
        Err(_) => Some(value),
    };
    assert_eq!(read, expected);
}

#[test]
fn quoted_values_agree_with_nom() {
    for text in all_texts(6) {
        let single = format!("'{}", text);
        assert_quoted(&single, nom_single_quoted(&single));
        let double = format!("\"{}", text);
        assert_quoted(&double, nom_double_quoted(&double));
    }
}
