//! How arguments are written, character by character, and what the models keep of the data.

use crate::arg::choice_texts;
use crate::arg::value_text;
use crate::arg::ArgData;
use crate::arg::ArgKind;
use crate::arg::ArgModel;
use crate::chars::CharClass;
use crate::event::event_models;
use crate::event::opt_data;
use crate::event::DataModel;
use crate::event::Event;
use crate::event::EventData;
use crate::meaning::covering_is_by_character;
use crate::meaning::separators_stand_between;
use crate::parser::choices_outcome;
use crate::parser::outcome;
use crate::parser::whole;
use crate::parser::ParseError;
use crate::text::contents;
use crate::text::joined;
use crate::text::opt_text;
use crate::text::owned_contents;
use vstd::prelude::*;

verus! {

/// The tags of the three kinds of arguments.
pub proof fn kinds_have_these_tags(kind: ArgKind)
    ensures
        kind == ArgKind::Flag ==> kind.tag() == seq!['@', 'f', 'l', 'a', 'g'],
        kind == ArgKind::Option ==> kind.tag() == seq!['@', 'o', 'p', 't', 'i', 'o', 'n'],
        kind == ArgKind::Positional ==> kind.tag() == seq!['@', 'a', 'r', 'g'],
{
    reveal_strlit("@flag");
    reveal_strlit("@option");
    reveal_strlit("@arg");
}

/// A new argument is an option that has its name and nothing else.
pub proof fn new_arguments_have_a_name_only(name: Seq<char>)
    ensures
        ({
            let a = ArgModel::named(name);
            &&& a.name == name && a.kind == ArgKind::Option
            &&& a.summary is None && a.value_name is None && a.short is None
            &&& a.choices is None && a.default is None
            &&& !a.multiple && !a.required
        }),
{
}

/// A choice is put in double quotes exactly if a `|` or a `]` occurs in it, and a default value
/// exactly if white space does.
pub proof fn values_are_quoted_where_needed(v: Seq<char>)
    ensures
        ({
            let in_quotes = seq!['"'] + v + seq!['"'];
            &&& v.contains('|') || v.contains(']') ==> value_text(v, CharClass::ChoiceText)
                == in_quotes
            &&& !v.contains('|') && !v.contains(']') ==> value_text(v, CharClass::ChoiceText) == v
            &&& (exists|c: char| v.contains(c) && CharClass::Whitespace.has(c)) ==> value_text(
                v,
                CharClass::DefaultText,
            ) == in_quotes
            &&& (forall|c: char| v.contains(c) ==> !CharClass::Whitespace.has(c)) ==> value_text(
                v,
                CharClass::DefaultText,
            ) == v
        }),
{
    covering_is_by_character(CharClass::ChoiceText, v);
    covering_is_by_character(CharClass::DefaultText, v);
}

/// A list of choices is written choice by choice, with a `|` between each two of them.
pub proof fn choices_are_written_with_bars(first: Seq<char>, others: Seq<Seq<char>>)
    ensures
        ({
            let bar = seq!['|'];
            let shown = value_text(first, CharClass::ChoiceText);
            &&& joined(choice_texts(Seq::empty()), bar) == Seq::<char>::empty()
            &&& joined(choice_texts(seq![first]), bar) == shown
            &&& others.len() > 0 ==> joined(choice_texts(seq![first] + others), bar) == shown + bar
                + joined(choice_texts(others), bar)
        }),
{
    let shown = value_text(first, CharClass::ChoiceText);
    assert(choice_texts(Seq::empty()) =~= Seq::<Seq<char>>::empty());
    assert(choice_texts(seq![first]) =~= seq![shown]);
    assert(choice_texts(seq![first] + others) =~= seq![shown] + choice_texts(others));
    separators_stand_between(shown, choice_texts(others), seq!['|']);
}

/// The name is followed by `+` if one value or more is needed, by `*` if any number will do, and
/// by `!` if exactly one is needed.
pub proof fn names_are_written_with_marks(a: ArgModel)
    ensures
        a.required && a.multiple ==> a.marked_name() == a.name + seq!['+'],
        !a.required && a.multiple ==> a.marked_name() == a.name + seq!['*'],
        a.required && !a.multiple ==> a.marked_name() == a.name + seq!['!'],
        !a.required && !a.multiple ==> a.marked_name() == a.name,
{
}

/// The long name of an option is followed by its choices in brackets, with a `=` before them if
/// there is a default; without choices, by a `=` and the default; without either, by its mark.
pub proof fn long_names_are_written_so(a: ArgModel)
    ensures
        a.choices is Some && a.default is None ==> a.option_name() == a.name + seq!['['] + joined(
            choice_texts(a.choices->0),
            seq!['|'],
        ) + seq![']'],
        a.choices is Some && a.default is Some ==> a.option_name() == a.name + seq!['[', '=']
            + joined(choice_texts(a.choices->0), seq!['|']) + seq![']'],
        a.choices is None && a.default is Some ==> a.option_name() == a.name + seq!['=']
            + value_text(a.default->0, CharClass::DefaultText),
        a.choices is None && a.default is None ==> a.option_name() == a.marked_name(),
{
}

/// A short name and the space behind it.
pub open spec fn short_part(short: Option<char>) -> Seq<char> {
    match short {
        Some(c) => seq!['-', c, ' '],
        None => Seq::empty(),
    }
}

/// A space and a value notation.
pub open spec fn value_name_part(name: Option<Seq<char>>) -> Seq<char> {
    match name {
        Some(v) => seq![' ', '<'] + v + seq!['>'],
        None => Seq::empty(),
    }
}

/// A space and a summary.
pub open spec fn summary_part(summary: Option<Seq<char>>) -> Seq<char> {
    match summary {
        Some(t) => seq![' '] + t,
        None => Seq::empty(),
    }
}

/// One or two parts, joined.
proof fn lemma_two(first: Seq<char>, second: Option<Seq<char>>)
    ensures
        joined(
            seq![first] + (match second {
                Some(t) => seq![t],
                None => Seq::<Seq<char>>::empty(),
            }),
            seq![' '],
        ) == first + summary_part(second),
{
    match second {
        Some(t) => {
            separators_stand_between(first, seq![t], seq![' ']);
            separators_stand_between(t, Seq::empty(), seq![' ']);
            assert(first + seq![' '] + t =~= first + (seq![' '] + t));
        },
        None => {
            separators_stand_between(first, Seq::empty(), seq![' ']);
            assert(seq![first] + Seq::<Seq<char>>::empty() =~= seq![first]);
            assert(first + Seq::<char>::empty() =~= first);
        },
    }
}

/// A flag is written as its short name, two dashes and its name, and its summary.
pub proof fn flags_are_written_so(a: ArgModel)
    requires
        a.kind == ArgKind::Flag,
    ensures
        a.text() == short_part(a.short) + seq!['-', '-'] + a.name + summary_part(a.summary),
{
    let long = seq!['-', '-'] + a.name;
    let last = seq![long] + a.summary_segment();
    lemma_two(long, a.summary);
    match a.short {
        Some(c) => {
            separators_stand_between(seq!['-', c], last, seq![' ']);
            assert(a.segments() =~= seq![seq!['-', c]] + last);
        },
        None => {
            assert(a.segments() =~= last);
        },
    }
    assert(a.text() =~= short_part(a.short) + seq!['-', '-'] + a.name + summary_part(a.summary));
}

/// An option is written as its short name, two dashes and its long name, its value notation, and
/// its summary.
pub proof fn options_are_written_so(a: ArgModel)
    requires
        a.kind == ArgKind::Option,
    ensures
        a.text() == short_part(a.short) + seq!['-', '-'] + a.option_name() + value_name_part(
            a.value_name,
        ) + summary_part(a.summary),
{
    let long = seq!['-', '-'] + a.option_name();
    let behind = match a.value_name {
        Some(v) => seq![seq!['<'] + v + seq!['>']] + a.summary_segment(),
        None => a.summary_segment(),
    };
    let last = seq![long] + behind;
    match a.value_name {
        Some(v) => {
            lemma_two(seq!['<'] + v + seq!['>'], a.summary);
            separators_stand_between(long, behind, seq![' ']);
        },
        None => {
            lemma_two(long, a.summary);
        },
    }
    match a.short {
        Some(c) => {
            separators_stand_between(seq!['-', c], last, seq![' ']);
            assert(a.segments() =~= seq![seq!['-', c]] + last);
        },
        None => {
            assert(a.segments() =~= last);
        },
    }
    assert(a.text() =~= short_part(a.short) + seq!['-', '-'] + a.option_name() + value_name_part(
        a.value_name,
    ) + summary_part(a.summary));
}

/// A positional argument is written as its name with its mark, and its summary.
pub proof fn positionals_are_written_so(a: ArgModel)
    requires
        a.kind == ArgKind::Positional,
    ensures
        a.text() == a.marked_name() + summary_part(a.summary),
{
    lemma_two(a.marked_name(), a.summary);
}

/// The model of an argument has all that the argument has.
pub proof fn models_keep_every_field(a: ArgData)
    ensures
        a@.name == a.name@,
        a@.kind == a.kind,
        a@.short == a.short,
        a@.multiple == a.multiple,
        a@.required == a.required,
        a@.summary is Some <==> a.summary is Some,
        a.summary is Some ==> a@.summary->0 == a.summary->0@,
        a@.value_name is Some <==> a.value_name is Some,
        a.value_name is Some ==> a@.value_name->0 == a.value_name->0@,
        a@.default is Some <==> a.default is Some,
        a.default is Some ==> a@.default->0 == a.default->0@,
        a@.choices is Some <==> a.choices is Some,
        a.choices is Some ==> a@.choices->0.len() == a.choices->0@.len(),
        a.choices is Some ==> forall|i: int|
            0 <= i < a.choices->0@.len() ==> #[trigger] a@.choices->0[i] == a.choices->0@[i]@,
{
}

/// The model of an event has its variant, its text and its position.
pub proof fn models_keep_every_event(e: Event, text: &str, arg: ArgData)
    ensures
        e@.data == e.data@,
        e@.position == e.position,
        EventData::Describe(text)@ == DataModel::Describe(text@),
        EventData::Version(text)@ == DataModel::Version(text@),
        EventData::Author(text)@ == DataModel::Author(text@),
        EventData::Cmd(text)@ == DataModel::Cmd(text@),
        EventData::Arg(arg)@ == DataModel::Arg(arg@),
        EventData::Func(text)@ == DataModel::Func(text@),
        EventData::Unexpect(text)@ == DataModel::Unexpect(text@),
        opt_data(Some(e.data)) == Some(e.data@),
        opt_data(None) is None,
{
}

/// The models of lists have as many items as the lists, in the same order.
pub proof fn models_keep_every_item(events: Seq<Event>, texts: Seq<&str>, owned: Seq<String>)
    ensures
        event_models(events).len() == events.len(),
        forall|i: int| 0 <= i < events.len() ==> #[trigger] event_models(events)[i] == events[i]@,
        contents(texts).len() == texts.len(),
        forall|i: int| 0 <= i < texts.len() ==> #[trigger] contents(texts)[i] == texts[i]@,
        owned_contents(owned).len() == owned.len(),
        forall|i: int| 0 <= i < owned.len() ==> #[trigger] owned_contents(owned)[i] == owned[i]@,
{
}

/// What a parser found is told with the text behind it; a parser that fails finds nothing.
pub proof fn outcomes_keep_what_was_found<T: View>(
    rest: &str,
    found: T,
    values: Vec<&str>,
    default: Option<&str>,
    text: &str,
)
    ensures
        outcome(Ok::<(&str, T), ParseError>((rest, found))) == Some((rest@, found@)),
        outcome(Err::<(&str, T), ParseError>(ParseError)) is None,
        whole(Some(found)) == Some((Seq::<char>::empty(), found)),
        whole(None::<T>) is None,
        choices_outcome(Ok((rest, (values, default)))) == Some(
            (rest@, (contents(values@), opt_text(default))),
        ),
        choices_outcome(Err(ParseError)) is None,
        opt_text(Some(text)) == Some(text@),
        opt_text(None) is None,
{
}

} // verus!
