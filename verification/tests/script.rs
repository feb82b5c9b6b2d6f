use argc_parser::chars::is_ascii_alphabetic;
use argc_parser::chars::is_whitespace;
use argc_parser::chars::CharClass;
use argc_parser::parse;
use argc_parser::text::lines;
use argc_parser::text::split_first;
use argc_parser::text::split_last;
use argc_parser::text::strip_cr;
use argc_parser::text::trim;
use argc_parser::Event;
use argc_parser::EventData;

const TEXTS: [&str; 14] = [
    "",
    "\n",
    "\r\n",
    "a",
    "a\n",
    "a\r\n",
    "a\r",
    "a\r\r\nb",
    "\n\na\n\nb",
    "a\nb\r\nc",
    "\u{e9}\n\u{1f600}\r\n\u{2028}x",
    "\r",
    "a\n\r",
    "  a \t\n b\u{3000}",
];

#[test]
fn script() {
    let source = "#!/bin/sh\n# @describe Demo\r\n\n# @cmd Go\n# @arg x\ngo() {\n}\n# @what";
    let found = parse(source).unwrap();
    let positions: Vec<usize> = found.iter().map(|e| e.position).collect();
    assert_eq!(positions, vec![2, 4, 5, 6, 8]);
    assert_eq!(found[0].data, EventData::Describe("Demo"));
    assert_eq!(found[1].data, EventData::Cmd("Go"));
    assert!(matches!(found[2].data, EventData::Arg(_)));
    assert_eq!(found[3].data, EventData::Func("go"));
    assert_eq!(found[4].data, EventData::Unexpect("what"));
    assert_eq!(parse("").unwrap(), vec![]);
    assert_eq!(parse("\n\nx=1\n").unwrap(), vec![]);
}

#[test]
fn joined_scripts() {
    let first = "# @cmd a\n\na() {\n}\n";
    let second = "# @cmd b\nb()";
    let joined = format!("{}{}", first, second);
    let mut expected = parse(first).unwrap();
    for event in parse(second).unwrap() {
        expected.push(Event {
            data: event.data,
            position: event.position + 4,
        });
    }
    assert_eq!(parse(&joined).unwrap(), expected);
}

#[test]
fn lines_agree_with_std() {
    for text in TEXTS {
        let expected: Vec<&str> = text.lines().collect();
        assert_eq!(lines(text), expected);
    }
}

#[test]
fn trim_agrees_with_std() {
    for text in TEXTS {
        assert_eq!(trim(text), text.trim());
    }
}

#[test]
fn character_classes_agree_with_std() {
    for c in '\0'..=char::MAX {
        assert_eq!(is_whitespace(c), c.is_whitespace());
        assert_eq!(is_ascii_alphabetic(c), c.is_ascii_alphabetic());
        assert_eq!(
            CharClass::Name.contains(c),
            c.is_ascii_alphanumeric() || c == '_' || c == '-'
        );
        assert_eq!(
            CharClass::ValueName.contains(c),
            c.is_ascii_uppercase() || c == '-'
        );
    }
}

#[test]
fn ends_of_a_text() {
    assert_eq!(split_first(""), None);
    assert_eq!(split_last(""), None);
    for c in ['a', '\u{e9}', '\u{2028}', '\u{1f600}'] {
        for text in ["", "x", "\u{e9}\u{1f600}"] {
            let behind = format!("{}{}", text, c);
            assert_eq!(split_last(&behind), Some((text, c)));
            let before = format!("{}{}", c, text);
            assert_eq!(split_first(&before), Some((c, text)));
        }
    }
    assert_eq!(strip_cr("a\r\r"), "a\r");
    assert_eq!(strip_cr("a"), "a");
    assert_eq!(strip_cr(""), "");
}

#[test]
fn line_endings_do_not_matter() {
    let unix = "# @cmd a\n\na()\nx=1\n# @arg b c";
    let found = parse(unix).unwrap();
    assert_eq!(found.len(), 3);
    let dos = unix.replace('\n', "\r\n");
    assert_eq!(parse(&dos).unwrap(), found);
    let ended = format!("{}\n", unix);
    assert_eq!(parse(&ended).unwrap(), found);
}
