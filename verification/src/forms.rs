//! The forms of the grammar: which texts are values, arguments, tags and functions, and what each
//! of them says.
//!
//! Each law holds in both directions: a text of the form gives the result, and nothing else does.

use crate::arg::ArgKind;
use crate::arg::ArgModel;
use crate::chars::ascii_alphabetic;
use crate::chars::CharClass;
use crate::grammar::after_dashes;
use crate::grammar::arg_mark;
use crate::grammar::arg_value_notation;
use crate::grammar::body_len;
use crate::grammar::choices;
use crate::grammar::end_text;
use crate::grammar::flag_arg;
use crate::grammar::lemma_body_len;
use crate::grammar::lemma_value_len;
use crate::grammar::more_choices;
use crate::grammar::non_empty;
use crate::grammar::opt_short;
use crate::grammar::option_arg;
use crate::grammar::option_name;
use crate::grammar::positional_arg;
use crate::grammar::quoted;
use crate::grammar::skip_blanks;
use crate::grammar::value;
use crate::meaning::a_tag_ends_at_a_blank;
use crate::meaning::escapes_pair_backslashes_and_quotes;
use crate::meaning::is_end;
use crate::meaning::lemma_split;
use crate::meaning::paired;
use crate::meaning::stops;
use crate::notation::lemma_escaped;
use crate::notation::lemma_span;
use crate::notation::marks_are_read;
use crate::notation::short_names_are_read;
use crate::notation::value_notations_are_read;
use crate::text::after_char;
use crate::text::joined;
use crate::text::separated;
use vstd::prelude::*;

verus! {

/// `s` is the value `v` between two quotes `q`, and `rest` behind it.
pub open spec fn is_quoted(s: Seq<char>, q: char, rest: Seq<char>, v: Seq<char>) -> bool {
    s == seq![q] + (v + (seq![q] + rest)) && paired(v, q)
}

/// A quoted value goes from one quote to the next one that is not escaped.
pub proof fn quoted_values_stand_between_quotes(
    s: Seq<char>,
    q: char,
    rest: Seq<char>,
    v: Seq<char>,
)
    requires
        q != '\\',
    ensures
        quoted(s, q) == Some((rest, v)) <==> is_quoted(s, q, rest, v),
{
    lemma_escaped(v, q, rest);
    escapes_pair_backslashes_and_quotes(v, q);
    if quoted(s, q) == Some((rest, v)) {
        let t = s.skip(1);
        let n = body_len(t, q)->0;
        lemma_body_len(t, q);
        assert(t =~= v + (seq![q] + rest));
        assert(s =~= seq![q] + t);
    }
    if is_quoted(s, q, rest, v) {
        let t = v + (seq![q] + rest);
        assert(s.skip(1) =~= t);
        assert(t.skip(v.len() as int + 1) =~= rest);
        assert(t.take(v.len() as int) =~= v);
    }
}

/// `s` starts with a value in quotes `q`.
pub open spec fn starts_quoted(s: Seq<char>, q: char) -> bool {
    exists|rest: Seq<char>, v: Seq<char>| is_quoted(s, q, rest, v)
}

/// A text starts with a quoted value exactly if one is read.
proof fn lemma_starts_quoted(s: Seq<char>, q: char)
    requires
        q != '\\',
    ensures
        starts_quoted(s, q) <==> quoted(s, q) is Some,
{
    if let Some((rest, v)) = quoted(s, q) {
        quoted_values_stand_between_quotes(s, q, rest, v);
    }
    if starts_quoted(s, q) {
        let (rest, v) = choose|rest: Seq<char>, v: Seq<char>| is_quoted(s, q, rest, v);
        quoted_values_stand_between_quotes(s, q, rest, v);
    }
}

/// `s` is the value `v` with `rest` behind it: in single quotes; or else in double quotes; or
/// else as far as the class goes.
pub open spec fn is_value(s: Seq<char>, class: CharClass, rest: Seq<char>, v: Seq<char>) -> bool {
    if starts_quoted(s, '\'') {
        is_quoted(s, '\'', rest, v)
    } else if starts_quoted(s, '"') {
        is_quoted(s, '"', rest, v)
    } else {
        s == v + rest && class.covers(v) && stops(class, rest)
    }
}

/// A value is quoted, or goes as far as its class does.
pub proof fn values_are_quoted_or_bare(
    s: Seq<char>,
    class: CharClass,
    rest: Seq<char>,
    v: Seq<char>,
)
    ensures
        value(s, class) == (rest, v) <==> is_value(s, class, rest, v),
{
    lemma_starts_quoted(s, '\'');
    lemma_starts_quoted(s, '"');
    quoted_values_stand_between_quotes(s, '\'', rest, v);
    quoted_values_stand_between_quotes(s, '"', rest, v);
    crate::meaning::runs_end_where_the_class_ends(class, s, v, rest);
}

/// The text of a value stands before the text that it leaves.
proof fn lemma_raw(s: Seq<char>, class: CharClass) -> (raw: Seq<char>)
    ensures
        s == raw + value(s, class).0,
{
    let (rest, v) = value(s, class);
    values_are_quoted_or_bare(s, class, rest, v);
    let raw = s.take(s.len() - rest.len());
    lemma_value_len(s, class);
    if starts_quoted(s, '\'') {
        assert(s =~= raw + rest);
    } else if starts_quoted(s, '"') {
        assert(s =~= raw + rest);
    } else {
        assert(s =~= raw + rest);
    }
    raw
}

/// What stands behind the text of the choice `i`.
pub open spec fn behind_choice(raws: Seq<Seq<char>>, i: int, rest: Seq<char>) -> Seq<char> {
    separated(raws.skip(i + 1), seq!['|']) + rest
}

/// The texts `raws`, with a `|` between each two of them and `rest` behind them, are the choices
/// `vs`.
pub open spec fn are_choices(raws: Seq<Seq<char>>, vs: Seq<Seq<char>>, rest: Seq<char>) -> bool {
    &&& raws.len() == vs.len()
    &&& after_char(rest, '|') is None
    &&& forall|i: int|
        #![trigger raws[i]]
        0 <= i < raws.len() ==> is_value(
            raws[i] + behind_choice(raws, i, rest),
            CharClass::ChoiceText,
            behind_choice(raws, i, rest),
            vs[i],
        )
}

/// The choices behind the first one are choices too.
proof fn lemma_other_choices(raws: Seq<Seq<char>>, vs: Seq<Seq<char>>, rest: Seq<char>)
    requires
        are_choices(raws, vs, rest),
        raws.len() > 0,
    ensures
        are_choices(raws.drop_first(), vs.drop_first(), rest),
{
    let others = raws.drop_first();
    assert forall|i: int| #![trigger others[i]] 0 <= i < others.len() implies is_value(
        others[i] + behind_choice(others, i, rest),
        CharClass::ChoiceText,
        behind_choice(others, i, rest),
        vs.drop_first()[i],
    ) by {
        assert(raws[i + 1] == others[i]);
        assert(raws.skip(i + 2) =~= others.skip(i + 1));
    }
}

/// Choices behind `|` are read one after the other.
#[verifier::spinoff_prover]
#[verifier::rlimit(30)]
proof fn lemma_choices_read(raws: Seq<Seq<char>>, vs: Seq<Seq<char>>, rest: Seq<char>)
    requires
        are_choices(raws, vs, rest),
    ensures
        more_choices(separated(raws, seq!['|']) + rest) == (rest, vs),
    decreases raws.len(),
{
    let s = separated(raws, seq!['|']) + rest;
    if raws.len() == 0 {
        assert(s =~= rest);
        assert(vs =~= Seq::empty());
    } else {
        let left = behind_choice(raws, 0, rest);
        let t = raws[0] + left;
        assert(raws.skip(1) =~= raws.drop_first());
        assert(s =~= seq!['|'] + t);
        assert(s.skip(1) =~= t);
        values_are_quoted_or_bare(t, CharClass::ChoiceText, left, vs[0]);
        lemma_other_choices(raws, vs, rest);
        lemma_choices_read(raws.drop_first(), vs.drop_first(), rest);
        assert(seq![vs[0]] + vs.drop_first() =~= vs);
    }
}

/// What was read as choices is made of the texts of choices.
#[verifier::spinoff_prover]
#[verifier::rlimit(30)]
proof fn lemma_choices_found(s: Seq<char>) -> (raws: Seq<Seq<char>>)
    ensures
        s == separated(raws, seq!['|']) + more_choices(s).0,
        are_choices(raws, more_choices(s).1, more_choices(s).0),
    decreases s.len(),
{
    match after_char(s, '|') {
        None => {
            let raws = Seq::<Seq<char>>::empty();
            assert(s =~= separated(raws, seq!['|']) + s);
            raws
        },
        Some(t) => {
            let (left, first) = value(t, CharClass::ChoiceText);
            lemma_value_len(t, CharClass::ChoiceText);
            let raw = lemma_raw(t, CharClass::ChoiceText);
            let others = lemma_choices_found(left);
            let raws = seq![raw] + others;
            lemma_first_choice(raw, others, first, more_choices(left).1, more_choices(left).0);
            let rest = more_choices(left).0;
            assert(more_choices(s) == (rest, seq![first] + more_choices(left).1));
            assert(raws.drop_first() =~= others);
            assert(separated(raws, seq!['|']) == seq!['|'] + raw + separated(others, seq!['|']));
            assert(s =~= seq!['|'] + (raw + (separated(others, seq!['|']) + rest)));
            assert(s =~= separated(raws, seq!['|']) + rest);
            raws
        },
    }
}

/// One more choice before other choices.
proof fn lemma_first_choice(
    raw: Seq<char>,
    others: Seq<Seq<char>>,
    first: Seq<char>,
    vs: Seq<Seq<char>>,
    rest: Seq<char>,
)
    requires
        are_choices(others, vs, rest),
        ({
            let left = separated(others, seq!['|']) + rest;
            value(raw + left, CharClass::ChoiceText) == (left, first)
        }),
    ensures
        are_choices(seq![raw] + others, seq![first] + vs, rest),
{
    let raws = seq![raw] + others;
    let all = seq![first] + vs;
    assert forall|i: int| #![trigger raws[i]] 0 <= i < raws.len() implies is_value(
        raws[i] + behind_choice(raws, i, rest),
        CharClass::ChoiceText,
        behind_choice(raws, i, rest),
        all[i],
    ) by {
        if i == 0 {
            let left = separated(others, seq!['|']) + rest;
            assert(raws.skip(1) =~= others);
            values_are_quoted_or_bare(raw + left, CharClass::ChoiceText, left, first);
        } else {
            assert(raws[i] == others[i - 1]);
            assert(raws.skip(i + 1) =~= others.skip(i));
        }
    }
}

/// `s` is a list of the choices `vs`, whose texts are `raws`, with `rest` behind it; the default
/// is the first choice where a `=` stands before it, and there is none otherwise.
pub open spec fn is_choice_list(
    s: Seq<char>,
    raws: Seq<Seq<char>>,
    vs: Seq<Seq<char>>,
    default: Option<Seq<char>>,
    rest: Seq<char>,
) -> bool {
    &&& vs.len() >= 2
    &&& are_choices(raws, vs, rest)
    &&& match default {
        Some(d) => d == vs[0] && s == seq!['='] + (joined(raws, seq!['|']) + rest),
        None => after_char(s, '=') is None && s == joined(raws, seq!['|']) + rest,
    }
}

/// What was read as a list of choices is one.
#[verifier::spinoff_prover]
#[verifier::rlimit(30)]
proof fn lemma_list_found(s: Seq<char>) -> (raws: Seq<Seq<char>>)
    requires
        choices(s) is Some,
    ensures
        choices(s) matches Some((rest, (vs, default))) && is_choice_list(
            s,
            raws,
            vs,
            default,
            rest,
        ),
{
    let start = match after_char(s, '=') {
        Some(t) => t,
        None => s,
    };
    let (left, first) = value(start, CharClass::ChoiceText);
    let (rest, found) = more_choices(left);
    let raw = lemma_raw(start, CharClass::ChoiceText);
    let others = lemma_choices_found(left);
    let raws = seq![raw] + others;
    lemma_first_choice(raw, others, first, found, rest);
    assert(raws.drop_first() =~= others);
    assert(joined(raws, seq!['|']) == raw + separated(others, seq!['|']));
    assert(start =~= joined(raws, seq!['|']) + rest);
    if after_char(s, '=') is Some {
        assert(s =~= seq!['='] + start);
    }
    raws
}

/// A list of choices is read.
#[verifier::spinoff_prover]
#[verifier::rlimit(30)]
proof fn lemma_list_read(
    s: Seq<char>,
    raws: Seq<Seq<char>>,
    vs: Seq<Seq<char>>,
    default: Option<Seq<char>>,
    rest: Seq<char>,
)
    requires
        is_choice_list(s, raws, vs, default, rest),
    ensures
        choices(s) == Some((rest, (vs, default))),
{
    let start = joined(raws, seq!['|']) + rest;
    let left = behind_choice(raws, 0, rest);
    assert(raws.skip(1) =~= raws.drop_first());
    assert(start =~= raws[0] + left);
    assert(is_value(raws[0] + left, CharClass::ChoiceText, left, vs[0]));
    values_are_quoted_or_bare(raws[0] + left, CharClass::ChoiceText, left, vs[0]);
    lemma_other_choices(raws, vs, rest);
    lemma_choices_read(raws.drop_first(), vs.drop_first(), rest);
    assert(seq![vs[0]] + vs.drop_first() =~= vs);
    if default is Some {
        assert(s.skip(1) =~= start);
    }
}

/// Choices are two or more values with a `|` between each two of them.
pub proof fn choices_stand_between_bars(
    s: Seq<char>,
    vs: Seq<Seq<char>>,
    default: Option<Seq<char>>,
    rest: Seq<char>,
)
    ensures
        choices(s) == Some((rest, (vs, default))) <==> exists|raws: Seq<Seq<char>>|
            is_choice_list(s, raws, vs, default, rest),
{
    if choices(s) is Some {
        let raws = lemma_list_found(s);
    }
    if exists|raws: Seq<Seq<char>>| is_choice_list(s, raws, vs, default, rest) {
        let raws = choose|raws: Seq<Seq<char>>| is_choice_list(s, raws, vs, default, rest);
        lemma_list_read(s, raws, vs, default, rest);
    }
}

/// `s` is a value notation of the name `v` behind the blanks `b`, with `rest` behind it.
pub open spec fn is_notation(
    s: Seq<char>,
    b: Seq<char>,
    v: Seq<char>,
    rest: Seq<char>,
) -> bool {
    &&& s == b + (seq!['<'] + (v + (seq!['>'] + rest)))
    &&& b.len() > 0
    &&& CharClass::Blank.covers(b)
    &&& CharClass::ValueName.covers(v)
}

/// `s` starts with a value notation of the name `v`, with `rest` behind it.
pub open spec fn starts_noted(s: Seq<char>, v: Seq<char>, rest: Seq<char>) -> bool {
    exists|b: Seq<char>| is_notation(s, b, v, rest)
}

/// What was read as a value notation is one.
#[verifier::spinoff_prover]
#[verifier::rlimit(30)]
proof fn lemma_notation_found(s: Seq<char>) -> (b: Seq<char>)
    requires
        arg_value_notation(s) is Some,
    ensures
        arg_value_notation(s) matches Some((rest, v)) && is_notation(s, b, v, rest),
{
    let b = CharClass::Blank.head(s);
    let opened = skip_blanks(s);
    let t = opened.skip(1);
    let v = CharClass::ValueName.head(t);
    let closed = CharClass::ValueName.tail(t);
    let rest = closed.skip(1);
    lemma_split(CharClass::Blank, s);
    lemma_split(CharClass::ValueName, t);
    assert(closed =~= seq!['>'] + rest);
    assert(opened =~= seq!['<'] + t);
    b
}

/// A value notation is a name between `<` and `>`, behind blanks.
pub proof fn notations_stand_between_brackets(s: Seq<char>, rest: Seq<char>, v: Seq<char>)
    ensures
        arg_value_notation(s) == Some((rest, v)) <==> starts_noted(s, v, rest),
{
    if arg_value_notation(s) is Some {
        let b = lemma_notation_found(s);
    }
    if starts_noted(s, v, rest) {
        let b = choose|b: Seq<char>| is_notation(s, b, v, rest);
        value_notations_are_read(b, v, rest);
    }
}

/// `pre` is a dash and a letter between the blanks `b0` and `b1`.
pub open spec fn is_dash_and_letter(
    pre: Seq<char>,
    b0: Seq<char>,
    c: char,
    b1: Seq<char>,
) -> bool {
    &&& pre == b0 + seq!['-', c] + b1
    &&& CharClass::Blank.covers(b0)
    &&& CharClass::Blank.covers(b1)
}

/// `pre` stands before the `--` of an argument with that short name: blanks, or a dash and the
/// letter between blanks.
pub open spec fn is_opening(pre: Seq<char>, short: Option<char>) -> bool {
    match short {
        Some(c) => ascii_alphabetic(c) && exists|b0: Seq<char>, b1: Seq<char>|
            is_dash_and_letter(pre, b0, c, b1),
        None => CharClass::Blank.covers(pre),
    }
}

/// Behind blanks the `--` is found.
proof fn lemma_dashes(b: Seq<char>, u: Seq<char>)
    requires
        CharClass::Blank.covers(b),
    ensures
        after_dashes(b + (seq!['-', '-'] + u)) == Some(u),
{
    lemma_span(CharClass::Blank, b, seq!['-', '-'] + u);
    crate::notation::lemma_after(seq!['-', '-'], u);
}

/// The short name and the `--` are found.
#[verifier::spinoff_prover]
#[verifier::rlimit(30)]
proof fn lemma_opening_read(pre: Seq<char>, short: Option<char>, u: Seq<char>)
    requires
        is_opening(pre, short),
    ensures
        ({
            let (start, found) = opt_short(pre + (seq!['-', '-'] + u));
            found == short && after_dashes(start) == Some(u)
        }),
{
    let dashed = seq!['-', '-'] + u;
    match short {
        Some(c) => {
            let (b0, b1) = choose|b0: Seq<char>, b1: Seq<char>|
                is_dash_and_letter(pre, b0, c, b1);
            assert(pre + dashed =~= b0 + (seq!['-', c] + (b1 + dashed)));
            short_names_are_read(b0, c, b1 + dashed);
            lemma_dashes(b1, u);
        },
        None => {
            assert(dashed =~= seq!['-', '-'] + u);
            short_names_are_read(pre, '-', u);
            lemma_dashes(pre, u);
        },
    }
}

/// What stands before the `--` that was found is an opening.
#[verifier::spinoff_prover]
#[verifier::rlimit(30)]
proof fn lemma_opening_found(s: Seq<char>) -> (pre: Seq<char>)
    requires
        after_dashes(opt_short(s).0) is Some,
    ensures
        is_opening(pre, opt_short(s).1),
        after_dashes(opt_short(s).0) matches Some(u) && s == pre + (seq!['-', '-'] + u),
{
    let (start, short) = opt_short(s);
    let u = after_dashes(start)->0;
    let b1 = CharClass::Blank.head(start);
    lemma_split(CharClass::Blank, start);
    lemma_split(CharClass::Blank, s);
    assert(skip_blanks(start) =~= seq!['-', '-'] + u);
    match short {
        Some(c) => {
            let b0 = CharClass::Blank.head(s);
            let pre = b0 + seq!['-', c] + b1;
            assert(skip_blanks(s) =~= seq!['-', c] + start);
            assert(s =~= pre + (seq!['-', '-'] + u));
            assert(is_dash_and_letter(pre, b0, c, b1));
            pre
        },
        None => b1,
    }
}

/// `last` ends an argument with that summary: it is empty or starts with a blank, and the summary
/// is its trimmed text, if there is any.
pub open spec fn is_summary(last: Seq<char>, summary: Option<Seq<char>>) -> bool {
    match summary {
        Some(t) => t.len() > 0 && is_end(last, t),
        None => is_end(last, Seq::empty()),
    }
}

/// The summary is read exactly where it is one.
proof fn lemma_summary(last: Seq<char>, summary: Option<Seq<char>>)
    ensures
        (end_text(last) matches Some(t) && non_empty(t) == summary) <==> is_summary(last, summary),
{
    let empty = Seq::<char>::empty();
    a_tag_ends_at_a_blank(last, empty);
    if let Some(t) = summary {
        a_tag_ends_at_a_blank(last, t);
    }
    if let Some(t) = end_text(last) {
        if t.len() == 0 {
            assert(t =~= empty);
        }
    }
}

/// `s` declares the flag `a`: the opening, `--`, the name, and the end with the summary.
pub open spec fn is_flag(s: Seq<char>, pre: Seq<char>, last: Seq<char>, a: ArgModel) -> bool {
    &&& s == pre + (seq!['-', '-'] + (a.name + last))
    &&& is_opening(pre, a.short)
    &&& CharClass::Name.covers(a.name)
    &&& is_summary(last, a.summary)
    &&& a.kind == ArgKind::Flag
    &&& a.value_name is None && a.choices is None && a.default is None
    &&& !a.multiple && !a.required
}

/// What was read as a flag is one.
proof fn lemma_flag_found(s: Seq<char>) -> (r: (Seq<char>, Seq<char>))
    requires
        flag_arg(s) is Some,
    ensures
        is_flag(s, r.0, r.1, flag_arg(s)->0),
{
    let pre = lemma_opening_found(s);
    let t = after_dashes(opt_short(s).0)->0;
    let last = CharClass::Name.tail(t);
    lemma_split(CharClass::Name, t);
    lemma_summary(last, (flag_arg(s)->0).summary);
    (pre, last)
}

/// A flag is written with its short name or without, its long name, and its summary behind any
/// blanks.
pub proof fn flags_have_this_form(s: Seq<char>, a: ArgModel)
    ensures
        flag_arg(s) == Some(a) <==> exists|pre: Seq<char>, last: Seq<char>|
            is_flag(s, pre, last, a),
{
    if flag_arg(s) is Some {
        let r = lemma_flag_found(s);
    }
    if exists|pre: Seq<char>, last: Seq<char>| is_flag(s, pre, last, a) {
        let (pre, last) = choose|pre: Seq<char>, last: Seq<char>| is_flag(s, pre, last, a);
        lemma_opening_read(pre, a.short, a.name + last);
        lemma_span(CharClass::Name, a.name, last);
        lemma_summary(last, a.summary);
    }
}

/// The mark that says whether a value is required and whether there can be several.
pub open spec fn mark_text(required: bool, multiple: bool) -> Seq<char> {
    if required && multiple {
        seq!['+']
    } else if multiple {
        seq!['*']
    } else if required {
        seq!['!']
    } else {
        Seq::empty()
    }
}

/// `s` declares the positional argument `a`: blanks, the name, its mark, and the end with the
/// summary. With neither a name nor a mark there is nothing behind the blanks.
pub open spec fn is_positional_arg(
    s: Seq<char>,
    b: Seq<char>,
    last: Seq<char>,
    a: ArgModel,
) -> bool {
    let word = a.name + mark_text(a.required, a.multiple);
    &&& s == b + (word + last)
    &&& CharClass::Blank.covers(b)
    &&& CharClass::Name.covers(a.name)
    &&& word.len() == 0 ==> last.len() == 0
    &&& is_summary(last, a.summary)
    &&& a.kind == ArgKind::Positional
    &&& a.short is None && a.value_name is None && a.choices is None && a.default is None
}

/// The mark is read from behind the name.
proof fn lemma_mark_read(name: Seq<char>, required: bool, multiple: bool, last: Seq<char>)
    requires
        CharClass::Name.covers(name),
        last.len() == 0 || last[0] == ' ' || last[0] == '\t',
    ensures
        arg_mark(name + mark_text(required, multiple) + last) == (
            last,
            ArgModel { required, multiple, ..ArgModel::named(name) },
        ),
{
    marks_are_read(name, last);
    assert(name + mark_text(true, true) + last =~= name + (seq!['+'] + last));
    assert(name + mark_text(false, true) + last =~= name + (seq!['*'] + last));
    assert(name + mark_text(true, false) + last =~= name + (seq!['!'] + last));
    assert(name + mark_text(false, false) + last =~= name + last);
}

/// What was read as a positional argument is one.
#[verifier::spinoff_prover]
#[verifier::rlimit(30)]
proof fn lemma_positional_found(s: Seq<char>) -> (r: (Seq<char>, Seq<char>))
    requires
        positional_arg(s) is Some,
    ensures
        is_positional_arg(s, r.0, r.1, positional_arg(s)->0),
{
    let a = positional_arg(s)->0;
    let b = CharClass::Blank.head(s);
    let t = skip_blanks(s);
    let (last, _) = arg_mark(t);
    let word = a.name + mark_text(a.required, a.multiple);
    lemma_split(CharClass::Blank, s);
    lemma_split(CharClass::Name, t);
    lemma_summary(last, a.summary);
    assert(t =~= word + last);
    if word.len() == 0 {
        assert(t =~= last);
    }
    (b, last)
}

/// A positional argument is written with its name, its mark, and its summary behind any blanks.
pub proof fn positionals_have_this_form(s: Seq<char>, a: ArgModel)
    ensures
        positional_arg(s) == Some(a) <==> exists|b: Seq<char>, last: Seq<char>|
            is_positional_arg(s, b, last, a),
{
    if positional_arg(s) is Some {
        let r = lemma_positional_found(s);
    }
    if exists|b: Seq<char>, last: Seq<char>| is_positional_arg(s, b, last, a) {
        let (b, last) = choose|b: Seq<char>, last: Seq<char>| is_positional_arg(s, b, last, a);
        let word = a.name + mark_text(a.required, a.multiple);
        assert((word + last).len() > 0 ==> !CharClass::Blank.has((word + last)[0])) by {
            if a.name.len() > 0 {
                assert((word + last)[0] == a.name[0]);
            } else if word.len() > 0 {
                assert((word + last)[0] == word[0]);
            }
        }
        lemma_span(CharClass::Blank, b, word + last);
        lemma_mark_read(a.name, a.required, a.multiple, last);
        lemma_summary(last, a.summary);
    }
}

/// `u` is a list of choices between brackets, with `rest` behind it.
pub open spec fn is_bracketed(
    u: Seq<char>,
    raws: Seq<Seq<char>>,
    vs: Seq<Seq<char>>,
    default: Option<Seq<char>>,
    rest: Seq<char>,
) -> bool {
    &&& u.len() > 0 && u[0] == '['
    &&& is_choice_list(u.skip(1), raws, vs, default, seq![']'] + rest)
}

/// What belongs to the long name of an option is told by the character behind the name: `=` and a
/// value are a default; `[`, choices and `]` are choices; a mark is a mark; anything else belongs
/// to what follows.
pub proof fn long_names_are_told_by_what_follows(name: Seq<char>, u: Seq<char>)
    requires
        CharClass::Name.covers(name),
        stops(CharClass::Name, u),
    ensures
        forall|rest: Seq<char>, v: Seq<char>|
            u.len() > 0 && u[0] == '=' && #[trigger] is_value(
                u.skip(1),
                CharClass::DefaultText,
                rest,
                v,
            ) ==> option_name(name + u) == (
                rest,
                ArgModel { default: Some(v), ..ArgModel::named(name) },
            ),
        forall|
            raws: Seq<Seq<char>>,
            vs: Seq<Seq<char>>,
            default: Option<Seq<char>>,
            rest: Seq<char>,
        |
            #[trigger] is_bracketed(u, raws, vs, default, rest) ==> option_name(name + u) == (
                rest,
                ArgModel { choices: Some(vs), default, ..ArgModel::named(name) },
            ),
        u.len() > 0 && u[0] == '!' ==> option_name(name + u) == (
            u.skip(1),
            ArgModel { required: true, ..ArgModel::named(name) },
        ),
        u.len() > 0 && u[0] == '*' ==> option_name(name + u) == (
            u.skip(1),
            ArgModel { multiple: true, ..ArgModel::named(name) },
        ),
        u.len() > 0 && u[0] == '+' ==> option_name(name + u) == (
            u.skip(1),
            ArgModel { required: true, multiple: true, ..ArgModel::named(name) },
        ),
        u.len() == 0 || (u[0] != '=' && u[0] != '[' && u[0] != '!' && u[0] != '*' && u[0] != '+')
            ==> option_name(name + u) == (u, ArgModel::named(name)),
        u.len() > 0 && u[0] == '[' && (forall|
            raws: Seq<Seq<char>>,
            vs: Seq<Seq<char>>,
            default: Option<Seq<char>>,
            rest: Seq<char>,
        |
            !#[trigger] is_bracketed(u, raws, vs, default, rest))
            ==> option_name(name + u) == (u, ArgModel::named(name)),
{
    lemma_span(CharClass::Name, name, u);
    assert forall|rest: Seq<char>, v: Seq<char>|
        u.len() > 0 && u[0] == '=' && #[trigger] is_value(
            u.skip(1),
            CharClass::DefaultText,
            rest,
            v,
        ) implies option_name(name + u) == (
        rest,
        ArgModel { default: Some(v), ..ArgModel::named(name) },
    ) by {
        values_are_quoted_or_bare(u.skip(1), CharClass::DefaultText, rest, v);
    }
    assert forall|
        raws: Seq<Seq<char>>,
        vs: Seq<Seq<char>>,
        default: Option<Seq<char>>,
        rest: Seq<char>,
    |
        #[trigger] is_bracketed(u, raws, vs, default, rest) implies option_name(name + u) == (
        rest,
        ArgModel { choices: Some(vs), default, ..ArgModel::named(name) },
    ) by {
        lemma_list_read(u.skip(1), raws, vs, default, seq![']'] + rest);
        assert((seq![']'] + rest).skip(1) =~= rest);
    }
    if u.len() > 0 && u[0] == '[' && (forall|
        raws: Seq<Seq<char>>,
        vs: Seq<Seq<char>>,
        default: Option<Seq<char>>,
        rest: Seq<char>,
    |
        !#[trigger] is_bracketed(u, raws, vs, default, rest)) {
        if let Some((left, (vs, default))) = choices(u.skip(1)) {
            if let Some(rest) = after_char(left, ']') {
                let raws = lemma_list_found(u.skip(1));
                assert(left =~= seq![']'] + rest);
                assert(is_bracketed(u, raws, vs, default, rest));
            }
        }
    }
}

/// What the long name of an option tells of it.
pub open spec fn long_name_part(a: ArgModel) -> ArgModel {
    ArgModel { short: None, value_name: None, summary: None, ..a }
}

/// `s` declares the option `a`: the opening, `--`, the long name with what belongs to it, the
/// value notation if there is one, and the end with the summary.
pub open spec fn is_option(
    s: Seq<char>,
    pre: Seq<char>,
    t: Seq<char>,
    left: Seq<char>,
    last: Seq<char>,
    a: ArgModel,
) -> bool {
    &&& s == pre + (seq!['-', '-'] + t)
    &&& is_opening(pre, a.short)
    &&& option_name(t) == (left, long_name_part(a))
    &&& match a.value_name {
        Some(v) => starts_noted(left, v, last),
        None => left == last && forall|v: Seq<char>, rest: Seq<char>| !starts_noted(left, v, rest),
    }
    &&& is_summary(last, a.summary)
}

/// What was read as an option is one.
#[verifier::spinoff_prover]
#[verifier::rlimit(30)]
proof fn lemma_option_found(s: Seq<char>) -> (r: (Seq<char>, Seq<char>, Seq<char>, Seq<char>))
    requires
        option_arg(s) is Some,
    ensures
        is_option(s, r.0, r.1, r.2, r.3, option_arg(s)->0),
{
    let a = option_arg(s)->0;
    let pre = lemma_opening_found(s);
    let t = after_dashes(opt_short(s).0)->0;
    let (left, part) = option_name(t);
    let last = match arg_value_notation(left) {
        Some((rest, _)) => rest,
        None => left,
    };
    crate::notation::lemma_name_part(t);
    assert(part == long_name_part(a));
    match arg_value_notation(left) {
        Some((rest, v)) => {
            notations_stand_between_brackets(left, rest, v);
        },
        None => {
            assert forall|v: Seq<char>, rest: Seq<char>| !starts_noted(left, v, rest) by {
                notations_stand_between_brackets(left, rest, v);
            }
        },
    }
    lemma_summary(last, a.summary);
    (pre, t, left, last)
}

/// An option is written with its short name or without, its long name and what belongs to it, its
/// value notation, and its summary behind any blanks.
pub proof fn options_have_this_form(s: Seq<char>, a: ArgModel)
    ensures
        option_arg(s) == Some(a) <==> exists|
            pre: Seq<char>,
            t: Seq<char>,
            left: Seq<char>,
            last: Seq<char>,
        |
            is_option(s, pre, t, left, last, a),
{
    if option_arg(s) is Some {
        let r = lemma_option_found(s);
    }
    if exists|pre: Seq<char>, t: Seq<char>, left: Seq<char>, last: Seq<char>|
        is_option(s, pre, t, left, last, a) {
        let (pre, t, left, last) = choose|
            pre: Seq<char>,
            t: Seq<char>,
            left: Seq<char>,
            last: Seq<char>,
        |
            is_option(s, pre, t, left, last, a);
        lemma_option_read(s, pre, t, left, last, a);
    }
}

/// An option is read.
#[verifier::spinoff_prover]
#[verifier::rlimit(30)]
proof fn lemma_option_read(
    s: Seq<char>,
    pre: Seq<char>,
    t: Seq<char>,
    left: Seq<char>,
    last: Seq<char>,
    a: ArgModel,
)
    requires
        is_option(s, pre, t, left, last, a),
    ensures
        option_arg(s) == Some(a),
{
    lemma_opening_read(pre, a.short, t);
    if let Some(v) = a.value_name {
        notations_stand_between_brackets(left, last, v);
    } else if let Some((rest, v)) = arg_value_notation(left) {
        notations_stand_between_brackets(left, rest, v);
    }
    lemma_summary(last, a.summary);
}

/// `s` starts with a name between `<` and `>`.
pub open spec fn starts_as_notation(s: Seq<char>, v: Seq<char>, rest: Seq<char>) -> bool {
    s == seq!['<'] + (v + (seq!['>'] + rest)) && CharClass::ValueName.covers(v)
}

/// However many blanks stand before the summary of an option, the summary is read, and it is all
/// of the text behind them.
pub proof fn the_summary_may_stand_behind_any_blanks(
    pre: Seq<char>,
    short: Option<char>,
    t: Seq<char>,
    part: ArgModel,
    b: Seq<char>,
    summary: Seq<char>,
)
    requires
        is_opening(pre, short),
        b.len() > 0,
        CharClass::Blank.covers(b),
        option_name(t + (b + summary)) == (b + summary, part),
        summary.len() > 0,
        !CharClass::Whitespace.has(summary[0]),
        !CharClass::Whitespace.has(summary.last()),
        forall|v: Seq<char>, rest: Seq<char>| !starts_as_notation(summary, v, rest),
    ensures
        option_arg(pre + (seq!['-', '-'] + (t + (b + summary)))) == Some(
            ArgModel { short, value_name: None, summary: Some(summary), ..part },
        ),
{
    let left = b + summary;
    let a = ArgModel { short, value_name: None, summary: Some(summary), ..part };
    crate::notation::lemma_name_part(t + left);
    assert forall|v: Seq<char>, rest: Seq<char>| !starts_noted(left, v, rest) by {
        if starts_noted(left, v, rest) {
            let c = choose|c: Seq<char>| is_notation(left, c, v, rest);
            let opened = seq!['<'] + (v + (seq!['>'] + rest));
            lemma_span(CharClass::Blank, c, opened);
            lemma_span(CharClass::Blank, b, summary);
            assert(starts_as_notation(summary, v, rest));
        }
    }
    assert(is_end(left, summary)) by {
        assert(left[0] == b[0]);
        assert(CharClass::Whitespace.covers(b)) by {
            assert forall|i: int| 0 <= i < b.len() implies CharClass::Whitespace.has(
                #[trigger] b[i],
            ) by {
                assert(CharClass::Blank.has(b[i]));
            }
        }
        assert(left =~= b + summary + Seq::<char>::empty());
    }
    let s = pre + (seq!['-', '-'] + (t + left));
    assert(is_option(s, pre, t + left, left, left, a));
    lemma_option_read(s, pre, t + left, left, left, a);
}

} // verus!
