//! The parser of scripts.

use crate::arg::ArgData;
use crate::arg::ArgKind;
use crate::arg::ArgModel;
use crate::chars::is_ascii_alphabetic;
use crate::chars::CharClass;
use crate::event::event_models;
use crate::event::opt_data;
use crate::event::DataModel;
use crate::event::Event;
use crate::event::EventData;
use crate::grammar;
use crate::text::contents;
use crate::text::lines;
use crate::text::opt_text;
use crate::text::part_before;
use crate::text::span;
use crate::text::split_first;
use crate::text::strip_char;
use crate::text::strip_prefix;
use crate::text::text_lines;
use crate::text::trim;
use vstd::prelude::*;

verus! {

broadcast use vstd::string::group_string_axioms;

/// The text does not have the expected form.
#[derive(Clone, Copy, Debug, PartialEq, Eq)]
pub struct ParseError;

/// The text behind what was read, and what was read.
pub type Parsed<'a, T> = Result<(&'a str, T), ParseError>;

/// What a parser found, over sequences of characters.
pub open spec fn outcome<T: View>(r: Parsed<T>) -> Option<(Seq<char>, T::V)> {
    match r {
        Ok((rest, found)) => Some((rest@, found@)),
        Err(_) => None,
    }
}

/// What the parser of an argument found: it leaves no text behind it.
pub open spec fn whole<T>(found: Option<T>) -> Option<(Seq<char>, T)> {
    match found {
        Some(v) => Some((Seq::empty(), v)),
        None => None,
    }
}

/// Skips spaces and tabs.
fn space0<'a>(input: &'a str) -> (r: &'a str)
    ensures
        r@ == grammar::skip_blanks(input@),
{
    let (_, rest) = span(input, CharClass::Blank);
    rest
}

/// Skips spaces and tabs, of which there must be one at least.
fn space1<'a>(input: &'a str) -> (r: Option<&'a str>)
    ensures
        opt_text(r) == grammar::skip_blanks1(input@),
{
    proof {
        crate::chars::lemma_run(CharClass::Blank, input@);
    }
    let (blanks, rest) = span(input, CharClass::Blank);
    if blanks.is_empty() {
        None
    } else {
        Some(rest)
    }
}

/// Reads the text that ends a tag.
fn parse_end<'a>(input: &'a str) -> (r: Parsed<'a, &'a str>)
    ensures
        outcome(r) == whole(grammar::end_text(input@)),
{
    proof {
        reveal_strlit("");
        assert(""@ =~= Seq::<char>::empty());
    }
    match split_first(input) {
        None => Ok(("", trim(input))),
        Some((c, _)) => if CharClass::Blank.contains(c) {
            Ok(("", trim(input)))
        } else {
            Err(ParseError)
        },
    }
}

/// Reads a name, which may be empty.
fn parse_name<'a>(input: &'a str) -> (r: (&'a str, &'a str))
    ensures
        r.0@ == CharClass::Name.tail(input@),
        r.1@ == CharClass::Name.head(input@),
{
    let (name, rest) = span(input, CharClass::Name);
    (rest, name)
}

/// Reads the text up to the closing quote, and that quote.
fn parse_quoted_body<'a>(input: &'a str, quote: char) -> (r: Parsed<'a, &'a str>)
    ensures
        outcome(r) == match grammar::body_len(input@, quote) {
            Some(n) => Some((input@.skip(n as int + 1), input@.take(n as int))),
            None => None,
        },
{
    let mut left: &'a str = input;
    let ghost mut k: int = 0;
    assert(input@.skip(0) =~= input@);
    loop
        invariant
            0 <= k <= input@.len(),
            left@ == input@.skip(k),
            grammar::body_len(input@, quote) == match grammar::body_len(left@, quote) {
                Some(n) => Some((n + k) as nat),
                None => None,
            },
        decreases input@.len() - k,
    {
        match split_first(left) {
            None => {
                return Err(ParseError);
            },
            Some((c, next)) => {
                assert(input@.skip(k).skip(1) =~= input@.skip(k + 1));
                if c == '\\' {
                    match strip_char(next, quote) {
                        None => {
                            return Err(ParseError);
                        },
                        Some(behind) => {
                            left = behind;
                            proof {
                                assert(input@.skip(k + 1).skip(1) =~= input@.skip(k + 2));
                                assert(input@.skip(k).skip(2) =~= input@.skip(k + 2));
                                k = k + 2;
                            }
                        },
                    }
                } else if c == quote {
                    return Ok((next, part_before(input, left)));
                } else {
                    left = next;
                    proof {
                        k = k + 1;
                    }
                }
            },
        }
    }
}

/// Reads a value between two quotes.
fn parse_quoted<'a>(input: &'a str, quote: char) -> (r: Parsed<'a, &'a str>)
    ensures
        outcome(r) == grammar::quoted(input@, quote),
{
    match strip_char(input, quote) {
        Some(rest) => parse_quoted_body(rest, quote),
        None => Err(ParseError),
    }
}

/// Reads a value in single quotes.
fn parse_single_quote<'a>(input: &'a str) -> (r: Parsed<'a, &'a str>)
    ensures
        outcome(r) == grammar::quoted(input@, '\''),
{
    parse_quoted(input, '\'')
}

/// Reads a value in double quotes.
fn parse_double_quote<'a>(input: &'a str) -> (r: Parsed<'a, &'a str>)
    ensures
        outcome(r) == grammar::quoted(input@, '"'),
{
    parse_quoted(input, '"')
}

/// Reads a value that is quoted, or made of characters of the class.
fn parse_value<'a>(input: &'a str, class: CharClass) -> (r: (&'a str, &'a str))
    ensures
        (r.0@, r.1@) == grammar::value(input@, class),
{
    match parse_single_quote(input) {
        Ok(found) => found,
        Err(_) => match parse_double_quote(input) {
            Ok(found) => found,
            Err(_) => {
                let (found, rest) = span(input, class);
                (rest, found)
            },
        },
    }
}

/// Reads a default value.
fn parse_default_value<'a>(input: &'a str) -> (r: (&'a str, &'a str))
    ensures
        (r.0@, r.1@) == grammar::value(input@, CharClass::DefaultText),
{
    parse_value(input, CharClass::DefaultText)
}

/// Reads one choice.
fn parse_choice_value<'a>(input: &'a str) -> (r: (&'a str, &'a str))
    ensures
        (r.0@, r.1@) == grammar::value(input@, CharClass::ChoiceText),
{
    parse_value(input, CharClass::ChoiceText)
}

/// What the parser of choices found, over sequences of characters.
pub open spec fn choices_outcome(r: Parsed<(Vec<&str>, Option<&str>)>) -> Option<
    (Seq<char>, (Seq<Seq<char>>, Option<Seq<char>>)),
> {
    match r {
        Ok((rest, (values, default))) => Some((rest@, (contents(values@), opt_text(default)))),
        Err(_) => None,
    }
}

/// Reads `a|b|c` or `=a|b|c`.
fn parse_choices<'a>(input: &'a str) -> (r: Parsed<'a, (Vec<&'a str>, Option<&'a str>)>)
    ensures
        choices_outcome(r) == grammar::choices(input@),
{
    let equal = strip_char(input, '=');
    let start = match equal {
        Some(rest) => rest,
        None => input,
    };
    let (after_first, first) = parse_choice_value(start);
    let mut values: Vec<&'a str> = Vec::new();
    values.push(first);
    let mut left: &'a str = after_first;
    let ghost expected = grammar::more_choices(after_first@);
    proof {
        assert(contents(values@) =~= seq![first@]);
        assert(seq![first@] + expected.1 =~= contents(values@) + expected.1);
    }
    loop
        invariant_except_break
            contents(values@) + grammar::more_choices(left@).1 == seq![first@] + expected.1,
            grammar::more_choices(left@).0 == expected.0,
        ensures
            contents(values@) == seq![first@] + expected.1,
            left@ == expected.0,
        decreases left@.len(),
    {
        match strip_char(left, '|') {
            None => {
                assert(contents(values@) + Seq::<Seq<char>>::empty() =~= contents(values@));
                break;
            },
            Some(rest) => {
                proof {
                    crate::grammar::lemma_value_len(rest@, CharClass::ChoiceText);
                }
                let ghost before = contents(values@);
                let (next, value) = parse_choice_value(rest);
                values.push(value);
                proof {
                    assert(contents(values@) =~= before + seq![value@]);
                    let others = grammar::more_choices(next@).1;
                    assert(before + seq![value@] + others =~= before + (seq![value@] + others));
                }
                left = next;
            },
        }
    }
    if values.len() < 2 {
        return Err(ParseError);
    }
    let default = match equal {
        Some(_) => Some(first),
        None => None,
    };
    Ok((left, (values, default)))
}

/// Reads `str`.
fn parse_arg_name<'a>(input: &'a str) -> (r: (&'a str, ArgData<'a>))
    ensures
        r.0@ == CharClass::Name.tail(input@),
        r.1@ == ArgModel::named(CharClass::Name.head(input@)),
{
    let (rest, name) = parse_name(input);
    (rest, ArgData::new(name))
}

/// Reads `str!`, `str*`, `str+` or `str`.
fn parse_arg_mark<'a>(input: &'a str) -> (r: (&'a str, ArgData<'a>))
    ensures
        (r.0@, r.1@) == grammar::arg_mark(input@),
{
    let (rest, mut arg) = parse_arg_name(input);
    match split_first(rest) {
        Some((c, behind)) => if c == '!' {
            arg.required = true;
            (behind, arg)
        } else if c == '*' {
            arg.multiple = true;
            (behind, arg)
        } else if c == '+' {
            arg.required = true;
            arg.multiple = true;
            (behind, arg)
        } else {
            (rest, arg)
        },
        None => (rest, arg),
    }
}

/// Reads `str=value`.
fn parse_arg_assign<'a>(input: &'a str) -> (r: Parsed<'a, ArgData<'a>>)
    ensures
        outcome(r) == grammar::arg_assign(input@),
{
    let (rest, mut arg) = parse_arg_name(input);
    match strip_char(rest, '=') {
        Some(behind) => {
            let (left, value) = parse_default_value(behind);
            arg.default = Some(value);
            Ok((left, arg))
        },
        None => Err(ParseError),
    }
}

/// Reads `str[a|b|c]` or `str[=a|b|c]`.
fn parse_arg_choices<'a>(input: &'a str) -> (r: Parsed<'a, ArgData<'a>>)
    ensures
        outcome(r) == grammar::arg_choices(input@),
{
    let (rest, mut arg) = parse_arg_name(input);
    match strip_char(rest, '[') {
        Some(behind) => match parse_choices(behind) {
            Ok((left, (values, default))) => match strip_char(left, ']') {
                Some(last) => {
                    arg.choices = Some(values);
                    arg.default = default;
                    Ok((last, arg))
                },
                None => Err(ParseError),
            },
            Err(e) => Err(e),
        },
        None => Err(ParseError),
    }
}

/// Reads `-s`.
fn parse_arg_short<'a>(input: &'a str) -> (r: Parsed<'a, char>)
    ensures
        outcome(r) == grammar::arg_short(input@),
{
    match strip_char(space0(input), '-') {
        Some(behind) => match split_first(behind) {
            Some((c, rest)) => if is_ascii_alphabetic(c) {
                Ok((rest, c))
            } else {
                Err(ParseError)
            },
            None => Err(ParseError),
        },
        None => Err(ParseError),
    }
}

/// Reads blanks and `<NAME>`.
fn parse_arg_value_notation<'a>(input: &'a str) -> (r: Parsed<'a, &'a str>)
    ensures
        outcome(r) == grammar::arg_value_notation(input@),
{
    match space1(input) {
        Some(left) => match strip_char(left, '<') {
            Some(behind) => {
                let (name, last) = span(behind, CharClass::ValueName);
                match strip_char(last, '>') {
                    Some(rest) => Ok((rest, name)),
                    None => Err(ParseError),
                }
            },
            None => Err(ParseError),
        },
        None => Err(ParseError),
    }
}

/// Reads a short name if there is one.
fn opt_arg_short<'a>(input: &'a str) -> (r: (&'a str, Option<char>))
    ensures
        (r.0@, r.1) == grammar::opt_short(input@),
{
    match parse_arg_short(input) {
        Ok((rest, c)) => (rest, Some(c)),
        Err(_) => (input, None),
    }
}

/// Skips blanks and `--`.
fn parse_dashes<'a>(input: &'a str) -> (r: Option<&'a str>)
    ensures
        opt_text(r) == grammar::after_dashes(input@),
{
    proof {
        reveal_strlit("--");
        assert("--"@ =~= seq!['-', '-']);
    }
    strip_prefix(space0(input), "--")
}

/// Reads the long name of an option, with what belongs to it.
fn parse_option_name<'a>(input: &'a str) -> (r: (&'a str, ArgData<'a>))
    ensures
        (r.0@, r.1@) == grammar::option_name(input@),
{
    match parse_arg_choices(input) {
        Ok(found) => found,
        Err(_) => match parse_arg_assign(input) {
            Ok(found) => found,
            Err(_) => parse_arg_mark(input),
        },
    }
}

/// `Some` of a text that is not empty.
fn some_text<'a>(text: &'a str) -> (r: Option<&'a str>)
    ensures
        opt_text(r) == grammar::non_empty(text@),
{
    if text.is_empty() {
        None
    } else {
        Some(text)
    }
}

/// Reads what is written behind `@option`.
pub fn parse_option_arg<'a>(input: &'a str) -> (r: Parsed<'a, ArgData<'a>>)
    ensures
        outcome(r) == whole(grammar::option_arg(input@)),
{
    let (start, short) = opt_arg_short(input);
    match parse_dashes(start) {
        Some(behind) => {
            let (left, mut arg) = parse_option_name(behind);
            let (last, value_name) = match parse_arg_value_notation(left) {
                Ok((rest, name)) => (rest, Some(name)),
                Err(_) => (left, None),
            };
            match parse_end(last) {
                Ok((rest, summary)) => {
                    arg.short = short;
                    arg.summary = some_text(summary);
                    arg.value_name = value_name;
                    Ok((rest, arg))
                },
                Err(e) => Err(e),
            }
        },
        None => Err(ParseError),
    }
}

/// Reads what is written behind `@arg`.
pub fn parse_positional_arg<'a>(input: &'a str) -> (r: Parsed<'a, ArgData<'a>>)
    ensures
        outcome(r) == whole(grammar::positional_arg(input@)),
{
    let (last, mut arg) = parse_arg_mark(space0(input));
    match parse_end(last) {
        Ok((rest, summary)) => {
            arg.kind = ArgKind::Positional;
            arg.summary = some_text(summary);
            Ok((rest, arg))
        },
        Err(e) => Err(e),
    }
}

/// Reads what is written behind `@flag`.
pub fn parse_flag_arg<'a>(input: &'a str) -> (r: Parsed<'a, ArgData<'a>>)
    ensures
        outcome(r) == whole(grammar::flag_arg(input@)),
{
    let (start, short) = opt_arg_short(input);
    match parse_dashes(start) {
        Some(behind) => {
            let (last, mut arg) = parse_arg_name(behind);
            match parse_end(last) {
                Ok((rest, summary)) => {
                    arg.short = short;
                    arg.summary = some_text(summary);
                    arg.kind = ArgKind::Flag;
                    Ok((rest, arg))
                },
                Err(e) => Err(e),
            }
        },
        None => Err(ParseError),
    }
}

/// Reads the text of a tag that is written as a word and a text.
fn parse_text_tag<'a>(input: &'a str, word: &str) -> (r: Parsed<'a, &'a str>)
    ensures
        outcome(r) == whole(grammar::text_tag(input@, word@)),
{
    match strip_prefix(input, word) {
        Some(rest) => parse_end(rest),
        None => Err(ParseError),
    }
}

/// Skips the word of a tag that declares an argument, and the blanks behind it.
fn parse_arg_tag<'a>(input: &'a str, word: &str) -> (r: Option<&'a str>)
    ensures
        opt_text(r) == grammar::arg_tag(input@, word@),
{
    match strip_prefix(input, word) {
        Some(rest) => space1(rest),
        None => None,
    }
}

/// Reads the declaration of an argument.
fn parse_declared_arg<'a>(input: &'a str) -> (r: Parsed<'a, ArgData<'a>>)
    ensures
        outcome(r) == whole(grammar::declared_arg(input@)),
{
    match parse_arg_tag(input, "option") {
        Some(rest) => parse_option_arg(rest),
        None => match parse_arg_tag(input, "arg") {
            Some(rest) => parse_positional_arg(rest),
            None => match parse_arg_tag(input, "flag") {
                Some(rest) => parse_flag_arg(rest),
                None => Err(ParseError),
            },
        },
    }
}

/// Skips `#`, blanks and `@`.
fn parse_tag_start<'a>(input: &'a str) -> (r: Option<&'a str>)
    ensures
        opt_text(r) == grammar::tag_body(input@),
{
    match strip_char(input, '#') {
        Some(rest) => strip_char(space0(rest), '@'),
        None => None,
    }
}

/// Reads a tag.
fn parse_tag<'a>(input: &'a str) -> (r: Parsed<'a, EventData<'a>>)
    ensures
        outcome(r) == match grammar::tag_body(input@) {
            Some(body) => Some(grammar::tag(body)),
            None => None,
        },
{
    match parse_tag_start(input) {
        None => Err(ParseError),
        Some(body) => {
            if let Ok((rest, text)) = parse_text_tag(body, "describe") {
                return Ok((rest, EventData::Describe(text)));
            }
            if let Ok((rest, text)) = parse_text_tag(body, "version") {
                return Ok((rest, EventData::Version(text)));
            }
            if let Ok((rest, text)) = parse_text_tag(body, "author") {
                return Ok((rest, EventData::Author(text)));
            }
            if let Ok((rest, text)) = parse_text_tag(body, "cmd") {
                return Ok((rest, EventData::Cmd(text)));
            }
            if let Ok((rest, arg)) = parse_declared_arg(body) {
                return Ok((rest, EventData::Arg(arg)));
            }
            let (rest, name) = parse_name(body);
            Ok((rest, EventData::Unexpect(name)))
        },
    }
}

/// Reads a function with the keyword: `function foo`.
fn parse_fn_keyword<'a>(input: &'a str) -> (r: Parsed<'a, &'a str>)
    ensures
        outcome(r) == grammar::fn_keyword(input@),
{
    match strip_prefix(space0(input), "function") {
        Some(rest) => match space1(rest) {
            Some(left) => Ok(parse_name(left)),
            None => Err(ParseError),
        },
        None => Err(ParseError),
    }
}

/// Reads a function without the keyword: `foo ()`.
fn parse_fn_elision<'a>(input: &'a str) -> (r: Parsed<'a, &'a str>)
    ensures
        outcome(r) == grammar::fn_elision(input@),
{
    let (rest, name) = parse_name(space0(input));
    match strip_char(space0(rest), '(') {
        Some(left) => match strip_char(space0(left), ')') {
            Some(last) => Ok((last, name)),
            None => Err(ParseError),
        },
        None => Err(ParseError),
    }
}

/// Reads a function.
fn parse_fn<'a>(input: &'a str) -> (r: Parsed<'a, EventData<'a>>)
    ensures
        outcome(r) == match grammar::function(input@) {
            Some((rest, name)) => Some((rest, DataModel::Func(name))),
            None => None,
        },
{
    match parse_fn_keyword(input) {
        Ok((rest, name)) => Ok((rest, EventData::Func(name))),
        Err(_) => match parse_fn_elision(input) {
            Ok((rest, name)) => Ok((rest, EventData::Func(name))),
            Err(e) => Err(e),
        },
    }
}

/// Reads one line. A line that declares nothing gives `None`; no line is an error.
pub fn parse_line<'a>(line: &'a str) -> (r: Parsed<'a, Option<EventData<'a>>>)
    ensures
        r matches Ok((rest, data)) && (rest@, opt_data(data)) == grammar::line(line@),
{
    match parse_tag(line) {
        Ok((rest, data)) => Ok((rest, Some(data))),
        Err(_) => match parse_fn(line) {
            Ok((rest, data)) => Ok((rest, Some(data))),
            Err(_) => Ok((line, None)),
        },
    }
}

/// Tokenizes a script. Each event has the number of its line, counted from one; no script is an
/// error.
pub fn parse<'a>(source: &'a str) -> (r: Result<Vec<Event<'a>>, ParseError>)
    ensures
        r matches Ok(found) && event_models(found@) == grammar::events(source@),
{
    let source_lines = lines(source);
    let ghost texts = text_lines(source@);
    let mut result: Vec<Event<'a>> = Vec::new();
    let mut i: usize = 0;
    assert(event_models(result@) =~= grammar::line_events(texts.take(0)));
    while i < source_lines.len()
        invariant
            i <= source_lines@.len(),
            texts == contents(source_lines@),
            event_models(result@) == grammar::line_events(texts.take(i as int)),
        decreases source_lines@.len() - i,
    {
        let ghost before = event_models(result@);
        proof {
            assert(texts.take(i + 1).drop_last() =~= texts.take(i as int));
            assert(texts.take(i + 1).last() == source_lines@[i as int]@);
        }
        match parse_line(source_lines[i]) {
            Ok((_, Some(data))) => {
                let event = Event { data, position: i + 1 };
                result.push(event);
                assert(event_models(result@) =~= before.push(event@));
            },
            Ok((_, None)) => {},
            Err(e) => {
                return Err(e);
            },
        }
        i = i + 1;
    }
    assert(texts.take(i as int) =~= texts);
    Ok(result)
}

} // verus!
