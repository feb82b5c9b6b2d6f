//! The grammar of tags and functions.
//!
//! Each definition takes the text that is left and gives what it reads, together with the text
//! behind it, or `None` where the text does not have the form.

use crate::arg::ArgKind;
use crate::arg::ArgModel;
use crate::chars::ascii_alphabetic;
use crate::chars::CharClass;
use crate::event::DataModel;
use crate::event::EventModel;
use crate::text::after;
use crate::text::after_char;
use crate::text::trimmed;
use vstd::prelude::*;

verus! {

/// `s` without the spaces and tabs at its start.
pub open spec fn skip_blanks(s: Seq<char>) -> Seq<char> {
    CharClass::Blank.tail(s)
}

/// `s` without the spaces and tabs at its start, of which there must be one at least.
pub open spec fn skip_blanks1(s: Seq<char>) -> Option<Seq<char>> {
    if CharClass::Blank.run(s) > 0 {
        Some(skip_blanks(s))
    } else {
        None
    }
}

/// The text that ends a tag: nothing, or a blank and then anything.
pub open spec fn end_text(s: Seq<char>) -> Option<Seq<char>> {
    if s.len() == 0 || CharClass::Blank.has(s[0]) {
        Some(trimmed(s))
    } else {
        None
    }
}

/// Length of the text before the quote `q` that closes a quoted value. In that text a backslash
/// can stand only before a quote, which then does not close the value.
pub open spec fn body_len(s: Seq<char>, q: char) -> Option<nat>
    decreases s.len(),
{
    if s.len() == 0 {
        None
    } else if s[0] == '\\' {
        if s.len() > 1 && s[1] == q {
            match body_len(s.skip(2), q) {
                Some(n) => Some(n + 2),
                None => None,
            }
        } else {
            None
        }
    } else if s[0] == q {
        Some(0)
    } else {
        match body_len(s.skip(1), q) {
            Some(n) => Some(n + 1),
            None => None,
        }
    }
}

/// A value between two quotes `q`.
pub open spec fn quoted(s: Seq<char>, q: char) -> Option<(Seq<char>, Seq<char>)> {
    match after_char(s, q) {
        Some(t) => match body_len(t, q) {
            Some(n) => Some((t.skip(n as int + 1), t.take(n as int))),
            None => None,
        },
        None => None,
    }
}

/// A value: in single quotes, or in double quotes, or else the longest text in the class.
pub open spec fn value(s: Seq<char>, class: CharClass) -> (Seq<char>, Seq<char>) {
    match (quoted(s, '\''), quoted(s, '"')) {
        (Some(r), _) => r,
        (None, Some(r)) => r,
        (None, None) => (class.tail(s), class.head(s)),
    }
}

/// The body of a quoted value lies inside the text, before its closing quote.
pub proof fn lemma_body_len(s: Seq<char>, q: char)
    ensures
        body_len(s, q) matches Some(n) ==> n < s.len() && s[n as int] == q,
    decreases s.len(),
{
    if s.len() > 0 {
        if s[0] == '\\' {
            if s.len() > 1 && s[1] == q {
                lemma_body_len(s.skip(2), q);
            }
        } else if s[0] != q {
            lemma_body_len(s.skip(1), q);
        }
    }
}

/// Reading a value leaves no more text than there was.
pub proof fn lemma_value_len(s: Seq<char>, class: CharClass)
    ensures
        value(s, class).0.len() <= s.len(),
{
    crate::chars::lemma_run(class, s);
    if s.len() > 0 {
        lemma_body_len(s.skip(1), '\'');
        lemma_body_len(s.skip(1), '"');
    }
}

/// Choices, each behind a `|`.
pub open spec fn more_choices(s: Seq<char>) -> (Seq<char>, Seq<Seq<char>>)
    decreases s.len(),
    via more_choices_decreases
{
    match after_char(s, '|') {
        Some(t) => {
            let (left, first) = value(t, CharClass::ChoiceText);
            let (rest, others) = more_choices(left);
            (rest, seq![first] + others)
        },
        None => (s, Seq::empty()),
    }
}

#[via_fn]
proof fn more_choices_decreases(s: Seq<char>) {
    if let Some(t) = after_char(s, '|') {
        lemma_value_len(t, CharClass::ChoiceText);
    }
}

/// Two or more choices, with a `|` between them; a `=` before the first one makes it the
/// default.
pub open spec fn choices(s: Seq<char>) -> Option<
    (Seq<char>, (Seq<Seq<char>>, Option<Seq<char>>)),
> {
    let start = match after_char(s, '=') {
        Some(t) => t,
        None => s,
    };
    let (left, first) = value(start, CharClass::ChoiceText);
    let (rest, others) = more_choices(left);
    if others.len() == 0 {
        None
    } else {
        let default = if after_char(s, '=') is Some {
            Some(first)
        } else {
            None
        };
        Some((rest, (seq![first] + others, default)))
    }
}

/// A name with choices: `str[a|b|c]` or `str[=a|b|c]`.
pub open spec fn arg_choices(s: Seq<char>) -> Option<(Seq<char>, ArgModel)> {
    match after_char(CharClass::Name.tail(s), '[') {
        Some(t) => match choices(t) {
            Some((left, (values, default))) => match after_char(left, ']') {
                Some(rest) => Some(
                    (
                        rest,
                        ArgModel {
                            choices: Some(values),
                            default,
                            ..ArgModel::named(CharClass::Name.head(s))
                        },
                    ),
                ),
                None => None,
            },
            None => None,
        },
        None => None,
    }
}

/// A name with a default value: `str=value`.
pub open spec fn arg_assign(s: Seq<char>) -> Option<(Seq<char>, ArgModel)> {
    match after_char(CharClass::Name.tail(s), '=') {
        Some(t) => {
            let (rest, default) = value(t, CharClass::DefaultText);
            Some(
                (
                    rest,
                    ArgModel {
                        default: Some(default),
                        ..ArgModel::named(CharClass::Name.head(s))
                    },
                ),
            )
        },
        None => None,
    }
}

/// A name with or without a mark: `str!`, `str*`, `str+` or `str`.
pub open spec fn arg_mark(s: Seq<char>) -> (Seq<char>, ArgModel) {
    let arg = ArgModel::named(CharClass::Name.head(s));
    let t = CharClass::Name.tail(s);
    if after_char(t, '!') is Some {
        (t.skip(1), ArgModel { required: true, ..arg })
    } else if after_char(t, '*') is Some {
        (t.skip(1), ArgModel { multiple: true, ..arg })
    } else if after_char(t, '+') is Some {
        (t.skip(1), ArgModel { required: true, multiple: true, ..arg })
    } else {
        (t, arg)
    }
}

/// A short name: `-s`.
pub open spec fn arg_short(s: Seq<char>) -> Option<(Seq<char>, char)> {
    match after_char(skip_blanks(s), '-') {
        Some(t) => if t.len() > 0 && ascii_alphabetic(t[0]) {
            Some((t.skip(1), t[0]))
        } else {
            None
        },
        None => None,
    }
}

/// A value notation: blanks and then `<NAME>`.
pub open spec fn arg_value_notation(s: Seq<char>) -> Option<(Seq<char>, Seq<char>)> {
    match skip_blanks1(s) {
        Some(left) => match after_char(left, '<') {
            Some(t) => match after_char(CharClass::ValueName.tail(t), '>') {
                Some(rest) => Some((rest, CharClass::ValueName.head(t))),
                None => None,
            },
            None => None,
        },
        None => None,
    }
}

/// `Some` of a text that is not empty.
pub open spec fn non_empty(s: Seq<char>) -> Option<Seq<char>> {
    if s.len() > 0 {
        Some(s)
    } else {
        None
    }
}

/// What stands before the long name: the text behind the short name if there is one, and the
/// short name.
pub open spec fn opt_short(s: Seq<char>) -> (Seq<char>, Option<char>) {
    match arg_short(s) {
        Some((rest, c)) => (rest, Some(c)),
        None => (s, None),
    }
}

/// What follows the `--` before a long name.
pub open spec fn after_dashes(s: Seq<char>) -> Option<Seq<char>> {
    after(skip_blanks(s), seq!['-', '-'])
}

/// The long name of an option, with what belongs to it.
pub open spec fn option_name(s: Seq<char>) -> (Seq<char>, ArgModel) {
    match (arg_choices(s), arg_assign(s)) {
        (Some(r), _) => r,
        (None, Some(r)) => r,
        (None, None) => arg_mark(s),
    }
}

/// What is written behind `@option`.
pub open spec fn option_arg(s: Seq<char>) -> Option<ArgModel> {
    let (start, short) = opt_short(s);
    match after_dashes(start) {
        Some(t) => {
            let (left, arg) = option_name(t);
            let (last, value_name) = match arg_value_notation(left) {
                Some((rest, name)) => (rest, Some(name)),
                None => (left, None),
            };
            match end_text(last) {
                Some(summary) => Some(
                    ArgModel { short, value_name, summary: non_empty(summary), ..arg },
                ),
                None => None,
            }
        },
        None => None,
    }
}

/// What is written behind `@arg`.
pub open spec fn positional_arg(s: Seq<char>) -> Option<ArgModel> {
    let (last, arg) = arg_mark(skip_blanks(s));
    match end_text(last) {
        Some(summary) => Some(
            ArgModel { kind: ArgKind::Positional, summary: non_empty(summary), ..arg },
        ),
        None => None,
    }
}

/// What is written behind `@flag`.
pub open spec fn flag_arg(s: Seq<char>) -> Option<ArgModel> {
    let (start, short) = opt_short(s);
    match after_dashes(start) {
        Some(t) => match end_text(CharClass::Name.tail(t)) {
            Some(summary) => Some(
                ArgModel {
                    kind: ArgKind::Flag,
                    short,
                    summary: non_empty(summary),
                    ..ArgModel::named(CharClass::Name.head(t))
                },
            ),
            None => None,
        },
        None => None,
    }
}

/// The text of a tag that is written as a word and a text.
pub open spec fn text_tag(s: Seq<char>, word: Seq<char>) -> Option<Seq<char>> {
    match after(s, word) {
        Some(t) => end_text(t),
        None => None,
    }
}

/// What follows the word of a tag that declares an argument, and the blanks behind it.
pub open spec fn arg_tag(s: Seq<char>, word: Seq<char>) -> Option<Seq<char>> {
    match after(s, word) {
        Some(t) => skip_blanks1(t),
        None => None,
    }
}

/// The argument that a tag declares.
pub open spec fn declared_arg(s: Seq<char>) -> Option<ArgModel> {
    match (arg_tag(s, "option"@), arg_tag(s, "arg"@), arg_tag(s, "flag"@)) {
        (Some(t), _, _) => option_arg(t),
        (None, Some(t), _) => positional_arg(t),
        (None, None, Some(t)) => flag_arg(t),
        (None, None, None) => None,
    }
}

/// What follows the `@` of a tag.
pub open spec fn tag_body(s: Seq<char>) -> Option<Seq<char>> {
    match after_char(s, '#') {
        Some(t) => after_char(skip_blanks(t), '@'),
        None => None,
    }
}

/// What the text behind an `@` declares. Text that is no known tag, or not written as that tag
/// is, stands for itself, with its first word as its name.
pub open spec fn tag(s: Seq<char>) -> (Seq<char>, DataModel) {
    if let Some(text) = text_tag(s, "describe"@) {
        (Seq::empty(), DataModel::Describe(text))
    } else if let Some(text) = text_tag(s, "version"@) {
        (Seq::empty(), DataModel::Version(text))
    } else if let Some(text) = text_tag(s, "author"@) {
        (Seq::empty(), DataModel::Author(text))
    } else if let Some(text) = text_tag(s, "cmd"@) {
        (Seq::empty(), DataModel::Cmd(text))
    } else if let Some(arg) = declared_arg(s) {
        (Seq::empty(), DataModel::Arg(arg))
    } else {
        (CharClass::Name.tail(s), DataModel::Unexpect(CharClass::Name.head(s)))
    }
}

/// A function with the keyword: `function foo`.
pub open spec fn fn_keyword(s: Seq<char>) -> Option<(Seq<char>, Seq<char>)> {
    match after(skip_blanks(s), "function"@) {
        Some(t) => match skip_blanks1(t) {
            Some(left) => Some((CharClass::Name.tail(left), CharClass::Name.head(left))),
            None => None,
        },
        None => None,
    }
}

/// A function without the keyword: `foo ()`.
pub open spec fn fn_elision(s: Seq<char>) -> Option<(Seq<char>, Seq<char>)> {
    let start = skip_blanks(s);
    match after_char(skip_blanks(CharClass::Name.tail(start)), '(') {
        Some(t) => match after_char(skip_blanks(t), ')') {
            Some(rest) => Some((rest, CharClass::Name.head(start))),
            None => None,
        },
        None => None,
    }
}

/// A function.
pub open spec fn function(s: Seq<char>) -> Option<(Seq<char>, Seq<char>)> {
    match (fn_keyword(s), fn_elision(s)) {
        (Some(r), _) => Some(r),
        (None, r) => r,
    }
}

/// What a line declares, and the text behind that.
pub open spec fn line(s: Seq<char>) -> (Seq<char>, Option<DataModel>) {
    if let Some(body) = tag_body(s) {
        let (rest, data) = tag(body);
        (rest, Some(data))
    } else if let Some((rest, name)) = function(s) {
        (rest, Some(DataModel::Func(name)))
    } else {
        (s, None)
    }
}

/// The events of consecutive lines, each with the number of its line, counted from one.
pub open spec fn line_events(lines: Seq<Seq<char>>) -> Seq<EventModel>
    decreases lines.len(),
{
    if lines.len() == 0 {
        Seq::empty()
    } else {
        let earlier = line_events(lines.drop_last());
        match line(lines.last()).1 {
            Some(data) => earlier.push(EventModel { data, position: lines.len() }),
            None => earlier,
        }
    }
}

/// The events of a script.
pub open spec fn events(source: Seq<char>) -> Seq<EventModel> {
    line_events(crate::text::text_lines(source))
}

} // verus!
