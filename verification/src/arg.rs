//! Arguments of a command, and the notation in which they are written.

use crate::chars::CharClass;
use crate::text::contents;
use crate::text::join;
use crate::text::joined;
use crate::text::opt_text;
use crate::text::owned_contents;
use vstd::prelude::*;

verus! {

broadcast use vstd::string::group_string_axioms;

/// What kind of argument a tag declares.
#[derive(Clone, Debug, PartialEq, Eq, Structural)]
pub enum ArgKind {
    Flag,
    Option,
    Positional,
}

/// A declared argument.
#[derive(Clone, Debug, PartialEq)]
pub struct ArgData<'a> {
    pub name: &'a str,
    pub kind: ArgKind,
    pub summary: Option<&'a str>,
    pub value_name: Option<&'a str>,
    pub short: Option<char>,
    pub choices: Option<Vec<&'a str>>,
    pub multiple: bool,
    pub required: bool,
    pub default: Option<&'a str>,
}

/// What an [`ArgData`] says, over sequences of characters.
#[verifier::ext_equal]
pub struct ArgModel {
    pub name: Seq<char>,
    pub kind: ArgKind,
    pub summary: Option<Seq<char>>,
    pub value_name: Option<Seq<char>>,
    pub short: Option<char>,
    pub choices: Option<Seq<Seq<char>>>,
    pub multiple: bool,
    pub required: bool,
    pub default: Option<Seq<char>>,
}

impl<'a> View for ArgData<'a> {
    type V = ArgModel;

    open spec fn view(&self) -> ArgModel {
        ArgModel {
            name: self.name@,
            kind: self.kind,
            summary: opt_text(self.summary),
            value_name: opt_text(self.value_name),
            short: self.short,
            choices: match self.choices {
                Some(choices) => Some(contents(choices@)),
                None => None,
            },
            multiple: self.multiple,
            required: self.required,
            default: opt_text(self.default),
        }
    }
}

impl ArgKind {
    /// The tag that declares an argument of this kind.
    pub open spec fn tag(self) -> Seq<char> {
        match self {
            ArgKind::Flag => "@flag"@,
            ArgKind::Option => "@option"@,
            ArgKind::Positional => "@arg"@,
        }
    }

    /// The tag that declares an argument of this kind.
    pub fn to_string(&self) -> (r: String)
        ensures
            r@ == self.tag(),
    {
        match self {
            ArgKind::Flag => "@flag".to_string(),
            ArgKind::Option => "@option".to_string(),
            ArgKind::Positional => "@arg".to_string(),
        }
    }
}

/// A value as it is written: in double quotes if some character of it is outside the class of
/// unquoted text.
pub open spec fn value_text(value: Seq<char>, class: CharClass) -> Seq<char> {
    if class.covers(value) {
        value
    } else {
        seq!['"'] + value + seq!['"']
    }
}

/// Choices as they are written, one by one.
pub open spec fn choice_texts(choices: Seq<Seq<char>>) -> Seq<Seq<char>> {
    Seq::new(choices.len(), |i: int| value_text(choices[i], CharClass::ChoiceText))
}

impl ArgModel {
    /// An option with a name and nothing else.
    pub open spec fn named(name: Seq<char>) -> ArgModel {
        ArgModel {
            name,
            kind: ArgKind::Option,
            summary: None,
            value_name: None,
            short: None,
            choices: None,
            multiple: false,
            required: false,
            default: None,
        }
    }

    /// The mark behind the name: `+` for one or more values, `*` for any number of values, `!`
    /// for exactly one value.
    pub open spec fn mark(self) -> Option<char> {
        if self.multiple {
            Some(if self.required { '+' } else { '*' })
        } else if self.required {
            Some('!')
        } else {
            None
        }
    }

    /// The name and its mark.
    pub open spec fn marked_name(self) -> Seq<char> {
        match self.mark() {
            Some(c) => self.name.push(c),
            None => self.name,
        }
    }

    /// The name of an option with its choices, or with its default value, or with its mark.
    pub open spec fn option_name(self) -> Seq<char> {
        match (self.choices, self.default) {
            (Some(choices), default) => {
                self.name + seq!['['] + (if default is Some {
                    seq!['=']
                } else {
                    Seq::empty()
                }) + joined(choice_texts(choices), seq!['|']) + seq![']']
            },
            (None, Some(value)) => {
                self.name + seq!['='] + value_text(value, CharClass::DefaultText)
            },
            (None, None) => self.marked_name(),
        }
    }

    /// The short name, as a segment of its own.
    pub open spec fn short_segment(self) -> Seq<Seq<char>> {
        match self.short {
            Some(c) => seq![seq!['-', c]],
            None => Seq::empty(),
        }
    }

    /// The value notation, as a segment of its own.
    pub open spec fn value_name_segment(self) -> Seq<Seq<char>> {
        match self.value_name {
            Some(name) => seq![seq!['<'] + name + seq!['>']],
            None => Seq::empty(),
        }
    }

    /// The summary, as a segment of its own.
    pub open spec fn summary_segment(self) -> Seq<Seq<char>> {
        match self.summary {
            Some(summary) => seq![summary],
            None => Seq::empty(),
        }
    }

    /// The segments of the notation.
    pub open spec fn segments(self) -> Seq<Seq<char>> {
        match self.kind {
            ArgKind::Flag => {
                self.short_segment() + seq![seq!['-', '-'] + self.name] + self.summary_segment()
            },
            ArgKind::Option => {
                self.short_segment() + seq![seq!['-', '-'] + self.option_name()]
                    + self.value_name_segment() + self.summary_segment()
            },
            ArgKind::Positional => { seq![self.marked_name()] + self.summary_segment() },
        }
    }

    /// The argument as it is written behind its tag.
    pub open spec fn text(self) -> Seq<char> {
        joined(self.segments(), seq![' '])
    }
}

/// Writes one value, in double quotes if it cannot stand unquoted in the class.
fn write_value(value: &str, class: CharClass) -> (r: String)
    ensures
        r@ == value_text(value@, class),
{
    let mut text = String::new();
    let (_, rest) = crate::text::span(value, class);
    proof {
        crate::chars::lemma_run(class, value@);
        assert(value@.take(value@.len() as int) =~= value@);
    }
    if rest.is_empty() {
        text.append(value);
        assert(text@ =~= value@);
    } else {
        text.push('"');
        text.append(value);
        text.push('"');
        assert(text@ =~= seq!['"'] + value@ + seq!['"']);
    }
    text
}

impl<'a> ArgData<'a> {
    /// An option with a name and nothing else.
    pub fn new(name: &'a str) -> (r: Self)
        ensures
            r@ == ArgModel::named(name@),
    {
        ArgData {
            name,
            summary: None,
            kind: ArgKind::Option,
            value_name: None,
            short: None,
            choices: None,
            multiple: false,
            required: false,
            default: None,
        }
    }

    /// Is this a positional argument?
    pub fn is_positional(&self) -> (r: bool)
        ensures
            r == (self@.kind == ArgKind::Positional),
    {
        self.kind == ArgKind::Positional
    }

    /// The mark that is written behind the name.
    fn name_suffix(&self) -> (r: Option<char>)
        ensures
            r == self@.mark(),
    {
        if self.multiple {
            return Some(
                match self.required {
                    true => '+',
                    false => '*',
                },
            );
        }
        if self.required {
            return Some('!');
        }
        None
    }

    /// Writes the name and its mark.
    fn write_marked_name(&self) -> (r: String)
        ensures
            r@ == self@.marked_name(),
    {
        let mut text = String::new();
        text.append(self.name);
        assert(text@ =~= self.name@);
        if let Some(c) = self.name_suffix() {
            text.push(c);
        }
        text
    }

    /// Writes the name of an option with its choices, or with its default value, or with its
    /// mark.
    fn write_option_name(&self) -> (r: String)
        ensures
            r@ == self@.option_name(),
    {
        match &self.choices {
            Some(choices) => {
                let mut values: Vec<String> = Vec::new();
                let mut i: usize = 0;
                while i < choices.len()
                    invariant
                        i <= choices@.len(),
                        owned_contents(values@) == choice_texts(contents(choices@)).take(i as int),
                    decreases choices@.len() - i,
                {
                    let ghost before = owned_contents(values@);
                    let value = write_value(choices[i], CharClass::ChoiceText);
                    values.push(value);
                    assert(owned_contents(values@) =~= before.push(value@));
                    assert(owned_contents(values@) =~= choice_texts(contents(choices@)).take(
                        i + 1,
                    ));
                    i = i + 1;
                }
                assert(owned_contents(values@) =~= choice_texts(contents(choices@)));
                let mut text = String::new();
                text.append(self.name);
                text.push('[');
                if self.default.is_some() {
                    text.push('=');
                }
                let list = join(&values, "|");
                proof {
                    reveal_strlit("|");
                    assert("|"@ =~= seq!['|']);
                }
                text.append(list.as_str());
                text.push(']');
                assert(text@ =~= self@.option_name());
                text
            },
            None => {
                match self.default {
                    Some(value) => {
                        let mut text = String::new();
                        text.append(self.name);
                        text.push('=');
                        let shown = write_value(value, CharClass::DefaultText);
                        text.append(shown.as_str());
                        assert(text@ =~= self@.option_name());
                        text
                    },
                    None => self.write_marked_name(),
                }
            },
        }
    }

    /// Writes the argument as it stands behind its tag.
    pub fn to_string(&self) -> (r: String)
        ensures
            r@ == self@.text(),
    {
        let mut segments: Vec<String> = Vec::new();
        assert(owned_contents(segments@) =~= Seq::empty());
        match self.kind {
            ArgKind::Flag => {
                self.write_short(&mut segments);
                let mut long = String::new();
                long.append("--");
                long.append(self.name);
                proof {
                    reveal_strlit("--");
                    assert(long@ =~= seq!['-', '-'] + self.name@);
                }
                push_segment(&mut segments, long);
            },
            ArgKind::Option => {
                self.write_short(&mut segments);
                let name = self.write_option_name();
                let mut long = String::new();
                long.append("--");
                long.append(name.as_str());
                proof {
                    reveal_strlit("--");
                    assert(long@ =~= seq!['-', '-'] + self@.option_name());
                }
                push_segment(&mut segments, long);
                if let Some(value_name) = self.value_name {
                    let mut notation = String::new();
                    notation.push('<');
                    notation.append(value_name);
                    notation.push('>');
                    assert(notation@ =~= seq!['<'] + value_name@ + seq!['>']);
                    push_segment(&mut segments, notation);
                }
            },
            ArgKind::Positional => {
                let name = self.write_marked_name();
                push_segment(&mut segments, name);
            },
        }
        if let Some(summary) = self.summary {
            push_segment(&mut segments, summary.to_string());
        }
        assert(owned_contents(segments@) =~= self@.segments());
        proof {
            reveal_strlit(" ");
            assert(" "@ =~= seq![' ']);
        }
        join(&segments, " ")
    }

    /// Adds the short name to the segments.
    fn write_short(&self, segments: &mut Vec<String>)
        ensures
            owned_contents(final(segments)@) == owned_contents(old(segments)@)
                + self@.short_segment(),
    {
        match self.short {
            Some(c) => {
                let mut text = String::new();
                text.push('-');
                text.push(c);
                assert(text@ =~= seq!['-', c]);
                push_segment(segments, text);
            },
            None => {
                assert(owned_contents(segments@) + Seq::<Seq<char>>::empty() =~= owned_contents(
                    segments@,
                ));
            },
        }
    }
}

/// Adds one segment.
fn push_segment(segments: &mut Vec<String>, text: String)
    ensures
        owned_contents(final(segments)@) == owned_contents(old(segments)@) + seq![text@],
{
    segments.push(text);
    assert(owned_contents(segments@) =~= owned_contents(old(segments)@) + seq![text@]);
}

} // verus!
