//! Which arguments are read back from the text in which they are written.

use crate::arg::choice_texts;
use crate::arg::value_text;
use crate::arg::ArgKind;
use crate::arg::ArgModel;
use crate::chars::ascii_alphabetic;
use crate::chars::lemma_run;
use crate::chars::lemma_run_is;
use crate::chars::CharClass;
use crate::event::DataModel;
use crate::grammar::after_dashes;
use crate::grammar::arg_assign;
use crate::grammar::arg_choices;
use crate::grammar::arg_mark;
use crate::grammar::arg_short;
use crate::grammar::arg_value_notation;
use crate::grammar::body_len;
use crate::grammar::choices;
use crate::grammar::declared_arg;
use crate::grammar::end_text;
use crate::grammar::flag_arg;
use crate::grammar::lemma_body_len;
use crate::grammar::line;
use crate::grammar::more_choices;
use crate::grammar::non_empty;
use crate::grammar::opt_short;
use crate::grammar::option_arg;
use crate::grammar::option_name;
use crate::grammar::positional_arg;
use crate::grammar::quoted;
use crate::grammar::skip_blanks;
use crate::grammar::skip_blanks1;
use crate::grammar::tag_body;
use crate::grammar::text_tag;
use crate::grammar::value;
use crate::text::after;
use crate::text::after_char;
use crate::text::joined;
use crate::text::separated;
use crate::text::trim_end;
use crate::text::trimmed;
use vstd::prelude::*;

verus! {

/// A prefix in the class, and text that does not go on in the class, are told apart.
pub(crate) proof fn lemma_span(class: CharClass, a: Seq<char>, b: Seq<char>)
    requires
        class.covers(a),
        b.len() == 0 || !class.has(b[0]),
    ensures
        class.run(a + b) == a.len(),
        class.head(a + b) == a,
        class.tail(a + b) == b,
{
    assert((a + b).take(a.len() as int) =~= a);
    lemma_run_is(class, a + b, a.len() as int);
    assert((a + b).skip(a.len() as int) =~= b);
}

/// Text that does not start in the class stays as it is.
pub(crate) proof fn lemma_no_run(class: CharClass, s: Seq<char>)
    requires
        s.len() == 0 || !class.has(s[0]),
    ensures
        class.run(s) == 0,
        class.tail(s) == s,
{
    assert(s.skip(0) =~= s);
}

/// What is left at the end is a prefix that does not end in white space.
pub(crate) proof fn lemma_trim_end(s: Seq<char>)
    ensures
        trim_end(s).len() <= s.len(),
        trim_end(s) == s.take(trim_end(s).len() as int),
        trim_end(s).len() > 0 ==> !CharClass::Whitespace.has(trim_end(s).last()),
    decreases s.len(),
{
    if s.len() > 0 && CharClass::Whitespace.has(s.last()) {
        lemma_trim_end(s.drop_last());
        let n = trim_end(s).len() as int;
        assert(s.drop_last().take(n) =~= s.take(n));
    } else {
        assert(s.take(s.len() as int) =~= s);
    }
}

/// Trimmed text has no white space at its ends, and is not changed by trimming.
pub proof fn trimming_twice_changes_nothing(s: Seq<char>)
    ensures
        trimmed(trimmed(s)) == trimmed(s),
        trimmed(s).len() > 0 ==> !CharClass::Whitespace.has(trimmed(s)[0])
            && !CharClass::Whitespace.has(trimmed(s).last()),
{
    let t = CharClass::Whitespace.tail(s);
    lemma_run(CharClass::Whitespace, s);
    lemma_trim_end(t);
    let r = trim_end(t);
    if r.len() > 0 {
        assert(r[0] == t[0]);
    }
    lemma_no_run(CharClass::Whitespace, r);
}

/// A blank before a text is trimmed away.
proof fn lemma_trim_blank(t: Seq<char>)
    ensures
        trimmed(seq![' '] + t) == trimmed(t),
        trimmed(Seq::<char>::empty()) == Seq::<char>::empty(),
{
    let s = seq![' '] + t;
    assert(s.drop_first() =~= t);
    assert(CharClass::Whitespace.run(s) == 1 + CharClass::Whitespace.run(t));
    lemma_run(CharClass::Whitespace, t);
    assert(CharClass::Whitespace.tail(s) =~= CharClass::Whitespace.tail(t));
    lemma_no_run(CharClass::Whitespace, Seq::empty());
}

/// A summary that can be read back: some text without white space at its ends.
pub open spec fn plain_summary(summary: Option<Seq<char>>) -> bool {
    summary matches Some(t) ==> t.len() > 0 && trimmed(t) == t
}

/// A short name that can be read back.
pub open spec fn plain_short(short: Option<char>) -> bool {
    short matches Some(c) ==> ascii_alphabetic(c)
}

/// The flags that are read back from their text.
pub open spec fn readable_flag(a: ArgModel) -> bool {
    &&& a.kind == ArgKind::Flag
    &&& CharClass::Name.covers(a.name)
    &&& plain_short(a.short)
    &&& plain_summary(a.summary)
    &&& a.value_name is None
    &&& a.choices is None
    &&& a.default is None
    &&& !a.multiple
    &&& !a.required
}

/// The positional arguments that are read back from their text.
pub open spec fn readable_positional(a: ArgModel) -> bool {
    &&& a.kind == ArgKind::Positional
    &&& CharClass::Name.covers(a.name)
    &&& a.short is None
    &&& plain_summary(a.summary)
    &&& a.value_name is None
    &&& a.choices is None
    &&& a.default is None
    &&& a.summary is Some ==> a.marked_name().len() > 0
}

/// What is written before the `--`.
pub open spec fn short_text(a: ArgModel) -> Seq<char> {
    match a.short {
        Some(c) => seq!['-', c, ' '],
        None => Seq::empty(),
    }
}

/// What is written for the summary.
pub open spec fn summary_text(a: ArgModel) -> Seq<char> {
    match a.summary {
        Some(t) => seq![' '] + t,
        None => Seq::empty(),
    }
}

/// What is written behind the name of an option.
pub open spec fn tail_text(a: ArgModel) -> Seq<char> {
    match a.value_name {
        Some(v) => seq![' ', '<'] + v + seq!['>'] + summary_text(a),
        None => summary_text(a),
    }
}

/// The text of a summary ends a tag.
proof fn lemma_end_text(a: ArgModel)
    requires
        plain_summary(a.summary),
    ensures
        end_text(summary_text(a)) is Some,
        non_empty(end_text(summary_text(a))->0) == a.summary,
{
    match a.summary {
        Some(t) => lemma_trim_blank(t),
        None => lemma_trim_blank(Seq::empty()),
    }
}

/// The short name is read from the text, and the `--` is found.
proof fn lemma_start(a: ArgModel, behind: Seq<char>)
    requires
        plain_short(a.short),
    ensures
        ({
            let s = short_text(a) + (seq!['-', '-'] + behind);
            let (start, short) = opt_short(s);
            &&& short == a.short
            &&& after_dashes(start) == Some(behind)
        }),
{
    let dashed = seq!['-', '-'] + behind;
    let s = short_text(a) + dashed;
    assert(s[0] == '-');
    lemma_no_run(CharClass::Blank, s);
    lemma_no_run(CharClass::Blank, dashed);
    assert(dashed.subrange(0, 2) =~= seq!['-', '-']);
    assert(dashed.skip(2) =~= behind);
    match a.short {
        Some(c) => {
            let rest = seq![' '] + dashed;
            assert(s.skip(1)[0] == c);
            assert(s.skip(1).skip(1) =~= rest);
            lemma_span(CharClass::Blank, seq![' '], dashed);
        },
        None => {
            assert(s =~= dashed);
            assert(s.skip(1)[0] == '-');
        },
    }
}

/// The first of some segments, written behind its separator.
proof fn lemma_segment(first: Seq<char>, others: Seq<Seq<char>>)
    ensures
        separated(seq![first] + others, seq![' ']) == seq![' '] + first + separated(
            others,
            seq![' '],
        ),
        joined(seq![first] + others, seq![' ']) == first + separated(others, seq![' ']),
{
    assert((seq![first] + others).drop_first() =~= others);
}

/// The segments behind the name of an argument, as they are written.
proof fn lemma_last_segments(a: ArgModel)
    ensures
        separated(a.summary_segment(), seq![' ']) == summary_text(a),
        separated(a.value_name_segment() + a.summary_segment(), seq![' ']) == tail_text(a),
{
    let none = Seq::<Seq<char>>::empty();
    if let Some(t) = a.summary {
        lemma_segment(t, none);
        assert(seq![t] + none =~= a.summary_segment());
        assert(seq![' '] + t + separated(none, seq![' ']) =~= summary_text(a));
    }
    if let Some(v) = a.value_name {
        let notation = seq!['<'] + v + seq!['>'];
        lemma_segment(notation, a.summary_segment());
        assert(seq![' '] + notation + summary_text(a) =~= tail_text(a));
    } else {
        assert(a.value_name_segment() + a.summary_segment() =~= a.summary_segment());
    }
}

/// The short name and the long name, as they are written before other segments.
proof fn lemma_names(a: ArgModel, long: Seq<char>, others: Seq<Seq<char>>)
    ensures
        joined(a.short_segment() + (seq![seq!['-', '-'] + long] + others), seq![' ']) == short_text(
            a,
        ) + (seq!['-', '-'] + (long + separated(others, seq![' ']))),
{
    let word = seq!['-', '-'] + long;
    let tail = separated(others, seq![' ']);
    lemma_segment(word, others);
    match a.short {
        Some(c) => {
            lemma_segment(seq!['-', c], seq![word] + others);
            assert(seq!['-', c] + (seq![' '] + word + tail) =~= short_text(a) + (seq!['-', '-'] + (
            long + tail)));
        },
        None => {
            assert(a.short_segment() + (seq![word] + others) =~= seq![word] + others);
            assert(word + tail =~= short_text(a) + (seq!['-', '-'] + (long + tail)));
        },
    }
}

/// The text of a flag.
proof fn lemma_flag_segments(a: ArgModel)
    requires
        a.kind == ArgKind::Flag,
    ensures
        a.text() == short_text(a) + (seq!['-', '-'] + (a.name + summary_text(a))),
{
    lemma_last_segments(a);
    lemma_names(a, a.name, a.summary_segment());
    assert(a.segments() =~= a.short_segment() + (seq![seq!['-', '-'] + a.name]
        + a.summary_segment()));
}

/// The text of a positional argument.
proof fn lemma_positional_segments(a: ArgModel)
    requires
        a.kind == ArgKind::Positional,
    ensures
        a.text() == a.marked_name() + summary_text(a),
{
    lemma_last_segments(a);
    lemma_segment(a.marked_name(), a.summary_segment());
}

/// The text of an option.
proof fn lemma_option_segments(a: ArgModel)
    requires
        a.kind == ArgKind::Option,
    ensures
        a.text() == short_text(a) + (seq!['-', '-'] + (a.option_name() + tail_text(a))),
{
    let others = a.value_name_segment() + a.summary_segment();
    lemma_last_segments(a);
    lemma_names(a, a.option_name(), others);
    assert(a.segments() =~= a.short_segment() + (seq![seq!['-', '-'] + a.option_name()] + others));
}

/// Every flag that is read from a text is one that its own text gives back.
pub proof fn parsed_flags_are_readable(s: Seq<char>)
    ensures
        flag_arg(s) matches Some(a) ==> readable_flag(a),
{
    if let Some(a) = flag_arg(s) {
        let (start, short) = opt_short(s);
        let t = after_dashes(start)->0;
        lemma_run(CharClass::Name, t);
        trimming_twice_changes_nothing(CharClass::Name.tail(t));
    }
}

/// A flag is read back from the text in which it is written, exactly if its name is made of name
/// characters, its short name is an ASCII letter, its summary is trimmed and not empty, and
/// nothing is set that a flag does not have.
pub proof fn flags_are_read_back(a: ArgModel)
    ensures
        flag_arg(a.text()) == Some(a) <==> readable_flag(a),
{
    if readable_flag(a) {
        lemma_flag_segments(a);
        lemma_start(a, a.name + summary_text(a));
        lemma_span(CharClass::Name, a.name, summary_text(a));
        lemma_end_text(a);
    }
    parsed_flags_are_readable(a.text());
}

/// The mark is read from the text behind the name.
proof fn lemma_mark(a: ArgModel, behind: Seq<char>)
    requires
        CharClass::Name.covers(a.name),
        behind.len() == 0 || behind[0] == ' ',
    ensures
        arg_mark(a.marked_name() + behind) == (
            behind,
            ArgModel { multiple: a.multiple, required: a.required, ..ArgModel::named(a.name) },
        ),
        arg_choices(a.marked_name() + behind) is None,
        arg_assign(a.marked_name() + behind) is None,
{
    match a.mark() {
        Some(c) => {
            let left = seq![c] + behind;
            assert(a.marked_name() + behind =~= a.name + left);
            lemma_span(CharClass::Name, a.name, left);
            assert(left.skip(1) =~= behind);
        },
        None => {
            lemma_span(CharClass::Name, a.name, behind);
        },
    }
}

/// Every positional argument that is read from a text is one that its own text gives back.
pub proof fn parsed_positionals_are_readable(s: Seq<char>)
    ensures
        positional_arg(s) matches Some(a) ==> readable_positional(a),
{
    if let Some(a) = positional_arg(s) {
        let t = skip_blanks(s);
        lemma_run(CharClass::Blank, s);
        lemma_run(CharClass::Name, t);
        let (last, _) = arg_mark(t);
        trimming_twice_changes_nothing(last);
        lemma_trim_blank(Seq::empty());
        if a.marked_name().len() == 0 {
            assert(t.skip(0) =~= t);
            assert(last == t);
            assert(t.len() == 0 || t[0] == s[CharClass::Blank.run(s) as int]);
            assert(last =~= Seq::empty());
        }
    }
}

/// A positional argument is read back from the text in which it is written, exactly if its name
/// is made of name characters, its summary is trimmed, not empty and not all of its text, and
/// nothing is set that a positional argument does not have.
pub proof fn positionals_are_read_back(a: ArgModel)
    ensures
        positional_arg(a.text()) == Some(a) <==> readable_positional(a),
{
    if readable_positional(a) {
        lemma_positional_segments(a);
        let s = a.text();
        assert(s.len() == 0 || !CharClass::Blank.has(s[0])) by {
            if a.name.len() > 0 {
                assert(s[0] == a.name[0]);
            }
        }
        lemma_no_run(CharClass::Blank, s);
        lemma_mark(a, summary_text(a));
        lemma_end_text(a);
    }
    parsed_positionals_are_readable(a.text());
}

/// A value can stand between two quotes `q` as it is: every backslash in it stands before a
/// quote, and every quote stands behind a backslash.
pub open spec fn escaped(v: Seq<char>, q: char) -> bool
    decreases v.len(),
{
    if v.len() == 0 {
        true
    } else if v[0] == '\\' {
        v.len() > 1 && v[1] == q && escaped(v.skip(2), q)
    } else {
        v[0] != q && escaped(v.skip(1), q)
    }
}

/// A value that is written before `follow` is read as itself: unquoted, it does not open a
/// quote that is closed somewhere behind it; quoted, its quotes are escaped.
pub open spec fn readable_value(v: Seq<char>, class: CharClass, follow: Seq<char>) -> bool {
    if class.covers(v) {
        quoted(v + follow, '\'') is None && quoted(v + follow, '"') is None
    } else {
        escaped(v, '"')
    }
}

/// The body of a quoted value ends at the given quote exactly if the text before it is escaped.
pub(crate) proof fn lemma_escaped(v: Seq<char>, q: char, follow: Seq<char>)
    requires
        q != '\\',
    ensures
        body_len(v + (seq![q] + follow), q) == Some(v.len()) <==> escaped(v, q),
    decreases v.len(),
{
    let s = v + (seq![q] + follow);
    if v.len() == 0 {
    } else if v[0] == '\\' {
        if v.len() > 1 {
            assert(s.skip(2) =~= v.skip(2) + (seq![q] + follow));
            lemma_escaped(v.skip(2), q, follow);
        }
    } else {
        assert(s.skip(1) =~= v.skip(1) + (seq![q] + follow));
        lemma_escaped(v.skip(1), q, follow);
    }
}

/// A written value is read back exactly if it is readable in its place.
pub proof fn values_are_read_back(v: Seq<char>, class: CharClass, follow: Seq<char>)
    requires
        class == CharClass::DefaultText || class == CharClass::ChoiceText,
        follow.len() == 0 || !class.has(follow[0]),
    ensures
        readable_value(v, class, follow) ==> value(value_text(v, class) + follow, class) == (
            follow,
            v,
        ),
        value(value_text(v, class) + follow, class).1 == v ==> readable_value(v, class, follow),
{
    let s = value_text(v, class) + follow;
    if class.covers(v) {
        lemma_span(class, v, follow);
        if quoted(s, '\'') is Some || quoted(s, '"') is Some {
            let q = if quoted(s, '\'') is Some {
                '\''
            } else {
                '"'
            };
            let t = s.skip(1);
            let n = body_len(t, q)->0;
            lemma_body_len(t, q);
            assert(s[0] == q);
            if t.take(n as int) == v {
                if v.len() > 0 {
                    assert(v[0] == s[0]);
                    assert(t.take(n as int)[0] == t[0]);
                }
            }
        }
    } else {
        let t = v + (seq!['"'] + follow);
        assert(s =~= seq!['"'] + t);
        assert(s.skip(1) =~= t);
        lemma_escaped(v, '"', follow);
        lemma_body_len(t, '"');
        lemma_run(class, s);
        match body_len(t, '"') {
            Some(n) => {
                if n == v.len() {
                    assert(t.skip(n as int + 1) =~= follow);
                    assert(t.take(n as int) =~= v);
                } else {
                    assert(t.take(n as int).len() == n);
                }
            },
            None => {},
        }
    }
}

/// A value without quotes and backslashes is readable wherever a value can end.
pub proof fn plain_values_are_readable(v: Seq<char>, class: CharClass, follow: Seq<char>)
    requires
        class == CharClass::DefaultText || class == CharClass::ChoiceText,
        follow.len() == 0 || !class.has(follow[0]),
        !v.contains('\''),
        !v.contains('"'),
        !v.contains('\\'),
    ensures
        readable_value(v, class, follow),
{
    if v.len() > 0 {
        assert(v.contains(v[0]));
        assert((v + follow)[0] == v[0]);
    } else {
        assert(v + follow =~= follow);
    }
    if !class.covers(v) {
        lemma_plain(v);
    }
}

/// A value without quotes and backslashes can stand between double quotes.
proof fn lemma_plain(v: Seq<char>)
    requires
        !v.contains('"'),
        !v.contains('\\'),
    ensures
        escaped(v, '"'),
    decreases v.len(),
{
    if v.len() > 0 {
        assert(v.contains(v[0]));
        assert forall|c: char| v.skip(1).contains(c) implies v.contains(c) by {
            let i = choose|i: int| 0 <= i < v.skip(1).len() && v.skip(1)[i] == c;
            assert(v[i + 1] == c);
        }
        lemma_plain(v.skip(1));
    }
}

/// The choices that are written before `follow` are read as themselves, each in its place.
pub open spec fn readable_choices(vs: Seq<Seq<char>>, follow: Seq<char>) -> bool
    decreases vs.len(),
{
    if vs.len() == 0 {
        true
    } else {
        let others = separated(choice_texts(vs.drop_first()), seq!['|']);
        &&& readable_value(vs[0], CharClass::ChoiceText, others + follow)
        &&& readable_choices(vs.drop_first(), follow)
    }
}

/// Choices behind `|` are read back exactly if they are readable in their places.
proof fn lemma_more_choices(vs: Seq<Seq<char>>, follow: Seq<char>)
    requires
        follow.len() > 0,
        follow[0] == ']',
    ensures
        ({
            let s = separated(choice_texts(vs), seq!['|']) + follow;
            &&& readable_choices(vs, follow) ==> more_choices(s) == (follow, vs)
            &&& more_choices(s).1 == vs ==> readable_choices(vs, follow)
        }),
    decreases vs.len(),
{
    let s = separated(choice_texts(vs), seq!['|']) + follow;
    if vs.len() == 0 {
        assert(s =~= follow);
        assert(vs =~= Seq::empty());
    } else {
        let first = vs[0];
        let others = vs.drop_first();
        let others_text = separated(choice_texts(others), seq!['|']) + follow;
        let t = value_text(first, CharClass::ChoiceText) + others_text;
        assert(choice_texts(vs).drop_first() =~= choice_texts(others));
        assert(s =~= seq!['|'] + t);
        assert(s.skip(1) =~= t);
        assert(others_text[0] == '|' || others_text[0] == ']') by {
            if others.len() == 0 {
                assert(others_text =~= follow);
            }
        }
        values_are_read_back(first, CharClass::ChoiceText, others_text);
        lemma_more_choices(others, follow);
        let (left, read) = value(t, CharClass::ChoiceText);
        let (rest, more) = more_choices(left);
        assert(more_choices(s) == (rest, seq![read] + more));
        assert((seq![read] + more)[0] == read);
        assert((seq![read] + more).drop_first() =~= more);
        assert(seq![first] + others =~= vs);
    }
}

/// The choices of an option between their brackets, as they are written.
spec fn choices_text(vs: Seq<Seq<char>>, default: Option<Seq<char>>) -> Seq<char> {
    (if default is Some {
        seq!['=']
    } else {
        Seq::empty()
    }) + joined(choice_texts(vs), seq!['|'])
}

/// Choices are read back exactly if they are readable in their places, and the first one, where
/// it is no default, does not look like one.
proof fn lemma_choices(vs: Seq<Seq<char>>, default: Option<Seq<char>>, follow: Seq<char>)
    requires
        vs.len() >= 2,
        default matches Some(d) ==> d == vs[0],
        follow.len() > 0,
        follow[0] == ']',
    ensures
        ({
            let read = choices(choices_text(vs, default) + follow);
            let read_back = read is Some && (read->0).1 == (vs, default);
            &&& read_back <==> {
                &&& readable_choices(vs, follow)
                &&& default is None ==> after_char(
                    value_text(vs[0], CharClass::ChoiceText),
                    '=',
                ) is None
            }
            &&& read_back ==> (read->0).0 == follow
        }),
{
    let u = choices_text(vs, default) + follow;
    let first = vs[0];
    let others = vs.drop_first();
    let first_text = value_text(first, CharClass::ChoiceText);
    let others_text = separated(choice_texts(others), seq!['|']) + follow;
    let start = first_text + others_text;
    assert(choice_texts(vs).drop_first() =~= choice_texts(others));
    assert(choice_texts(vs)[0] == first_text);
    assert(others_text[0] == '|');
    values_are_read_back(first, CharClass::ChoiceText, others_text);
    lemma_more_choices(others, follow);
    assert(seq![first] + others =~= vs);
    if default is Some {
        assert(u =~= seq!['='] + start);
        assert(u.skip(1) =~= start);
    } else {
        assert(u =~= start);
        assert(first_text.len() > 0 ==> u[0] == first_text[0]);
    }
    if default is Some || after_char(first_text, '=') is None {
        let (left, read) = value(start, CharClass::ChoiceText);
        let (rest, more) = more_choices(left);
        assert((seq![read] + more)[0] == read);
        assert((seq![read] + more).drop_first() =~= more);
    } else {
        assert(after_char(u, '=') is Some);
    }
}

/// A choice that can stand as it is: it holds neither `|` nor `]`, and does not start with a
/// quote.
pub open spec fn bare_choice(v: Seq<char>) -> bool {
    &&& CharClass::ChoiceText.covers(v)
    &&& v.len() > 0 ==> v[0] != '\'' && v[0] != '"'
}

/// Bare choices are written as they are, and are readable before any closing bracket.
proof fn lemma_bare_choices(vs: Seq<Seq<char>>, follow: Seq<char>)
    requires
        forall|i: int| 0 <= i < vs.len() ==> bare_choice(#[trigger] vs[i]),
        follow.len() > 0,
        follow[0] == ']',
    ensures
        choice_texts(vs) == vs,
        readable_choices(vs, follow),
    decreases vs.len(),
{
    assert(choice_texts(vs) =~= vs);
    if vs.len() > 0 {
        let others = vs.drop_first();
        let others_text = separated(choice_texts(others), seq!['|']) + follow;
        lemma_bare_choices(others, follow);
        assert(bare_choice(vs[0]));
        assert(others_text[0] == '|' || others_text[0] == ']') by {
            if others.len() == 0 {
                assert(others_text =~= follow);
            }
        }
        let s = vs[0] + others_text;
        assert(s[0] != '\'' && s[0] != '"') by {
            if vs[0].len() > 0 {
                assert(s[0] == vs[0][0]);
            }
        }
    }
}

/// Reading choices undoes joining them with `|`: bare choices are read back in their order, with
/// duplicates and empty ones, and a `=` before them makes the first one the default. Fewer than
/// two choices are none.
pub proof fn joined_choices_are_read_back(vs: Seq<Seq<char>>, follow: Seq<char>)
    requires
        forall|i: int| 0 <= i < vs.len() ==> bare_choice(#[trigger] vs[i]),
        follow.len() > 0,
        follow[0] == ']',
    ensures
        ({
            let plain = choices(joined(vs, seq!['|']) + follow);
            let with_default = choices(seq!['='] + joined(vs, seq!['|']) + follow);
            let starts_bare = vs.len() > 0 ==> after_char(vs[0], '=') is None;
            &&& vs.len() >= 2 && starts_bare ==> plain == Some((follow, (vs, None::<Seq<char>>)))
            &&& vs.len() >= 2 ==> with_default == Some((follow, (vs, Some(vs[0]))))
            &&& vs.len() < 2 && starts_bare ==> plain is None
            &&& vs.len() < 2 ==> with_default is None
        }),
{
    let start = joined(vs, seq!['|']) + follow;
    lemma_bare_choices(vs, follow);
    assert(seq!['='] + joined(vs, seq!['|']) + follow =~= seq!['='] + start);
    if vs.len() >= 2 {
        lemma_choices(vs, None, follow);
        lemma_choices(vs, Some(vs[0]), follow);
        assert(bare_choice(vs[0]));
        assert(choices_text(vs, None) + follow =~= start);
        assert(choices_text(vs, Some(vs[0])) + follow =~= seq!['='] + start);
    } else {
        let only = if vs.len() == 0 {
            Seq::<char>::empty()
        } else {
            vs[0]
        };
        if vs.len() == 1 {
            assert(bare_choice(vs[0]));
            assert(vs.drop_first() =~= Seq::empty());
        }
        assert(start =~= only + follow);
        assert(start[0] != '\'' && start[0] != '"') by {
            if only.len() > 0 {
                assert(start[0] == only[0]);
            }
        }
        lemma_span(CharClass::ChoiceText, only, follow);
        assert((seq!['='] + start).skip(1) =~= start);
    }
}

/// A value between two quotes is read as it is, exactly if its own quotes are escaped.
pub proof fn quoted_values_are_read(
    v: Seq<char>,
    q: char,
    class: CharClass,
    follow: Seq<char>,
)
    requires
        q == '\'' || q == '"',
    ensures
        value(seq![q] + (v + (seq![q] + follow)), class) == (follow, v) <==> escaped(v, q),
{
    let t = v + (seq![q] + follow);
    let s = seq![q] + t;
    assert(s.skip(1) =~= t);
    lemma_escaped(v, q, follow);
    lemma_body_len(t, q);
    lemma_run(class, s);
    if let Some(n) = body_len(t, q) {
        if n == v.len() {
            assert(t.skip(n as int + 1) =~= follow);
            assert(t.take(n as int) =~= v);
        } else {
            assert(t.take(n as int).len() == n);
        }
    }
}

/// A value in the class that does not start with a quote is read as it is, wherever a value can
/// end.
pub proof fn bare_values_are_read(v: Seq<char>, class: CharClass, follow: Seq<char>)
    requires
        class == CharClass::DefaultText || class == CharClass::ChoiceText,
        class.covers(v),
        v.len() > 0 ==> v[0] != '\'' && v[0] != '"',
        follow.len() == 0 || !class.has(follow[0]),
    ensures
        value(v + follow, class) == (follow, v),
{
    assert((v + follow).len() > 0 ==> (v + follow)[0] != '\'' && (v + follow)[0] != '"') by {
        if v.len() > 0 {
            assert((v + follow)[0] == v[0]);
        } else {
            assert(v + follow =~= follow);
        }
    }
    lemma_span(class, v, follow);
}

/// A name, a `=` and a bare value are read as an option with that default.
pub proof fn assigned_defaults_are_read(name: Seq<char>, v: Seq<char>, follow: Seq<char>)
    requires
        CharClass::Name.covers(name),
        CharClass::DefaultText.covers(v),
        v.len() > 0 ==> v[0] != '\'' && v[0] != '"',
        follow.len() == 0 || CharClass::Whitespace.has(follow[0]),
    ensures
        arg_assign(name + (seq!['='] + (v + follow))) == Some(
            (follow, ArgModel { default: Some(v), ..ArgModel::named(name) }),
        ),
{
    let assign = seq!['='] + (v + follow);
    lemma_span(CharClass::Name, name, assign);
    assert(assign.skip(1) =~= v + follow);
    bare_values_are_read(v, CharClass::DefaultText, follow);
}

/// A name and two or more bare choices in brackets are read as an option with those choices; a
/// `=` before the first one makes it the default.
pub proof fn bracketed_choices_are_read(name: Seq<char>, vs: Seq<Seq<char>>, rest: Seq<char>)
    requires
        CharClass::Name.covers(name),
        vs.len() >= 2,
        forall|i: int| 0 <= i < vs.len() ==> bare_choice(#[trigger] vs[i]),
    ensures
        after_char(vs[0], '=') is None ==> arg_choices(
            name + (seq!['['] + (joined(vs, seq!['|']) + (seq![']'] + rest))),
        ) == Some((rest, ArgModel { choices: Some(vs), ..ArgModel::named(name) })),
        arg_choices(
            name + (seq!['['] + (seq!['='] + joined(vs, seq!['|']) + (seq![']'] + rest))),
        ) == Some(
            (rest, ArgModel { choices: Some(vs), default: Some(vs[0]), ..ArgModel::named(name) }),
        ),
{
    let follow = seq![']'] + rest;
    let plain = joined(vs, seq!['|']) + follow;
    let with_default = seq!['='] + joined(vs, seq!['|']) + follow;
    joined_choices_are_read_back(vs, follow);
    lemma_span(CharClass::Name, name, seq!['['] + plain);
    lemma_span(CharClass::Name, name, seq!['['] + with_default);
    assert((seq!['['] + plain).skip(1) =~= plain);
    assert((seq!['['] + with_default).skip(1) =~= with_default);
    assert(follow.skip(1) =~= rest);
}

/// The marks `!`, `*` and `+` behind a name tell whether a value is required and whether there
/// can be several; without a mark neither holds.
pub proof fn marks_are_read(name: Seq<char>, rest: Seq<char>)
    requires
        CharClass::Name.covers(name),
    ensures
        arg_mark(name + (seq!['!'] + rest)) == (
            rest,
            ArgModel { required: true, ..ArgModel::named(name) },
        ),
        arg_mark(name + (seq!['*'] + rest)) == (
            rest,
            ArgModel { multiple: true, ..ArgModel::named(name) },
        ),
        arg_mark(name + (seq!['+'] + rest)) == (
            rest,
            ArgModel { required: true, multiple: true, ..ArgModel::named(name) },
        ),
        rest.len() == 0 || (!CharClass::Name.has(rest[0]) && rest[0] != '!' && rest[0] != '*'
            && rest[0] != '+') ==> arg_mark(name + rest) == (rest, ArgModel::named(name)),
{
    lemma_span(CharClass::Name, name, seq!['!'] + rest);
    lemma_span(CharClass::Name, name, seq!['*'] + rest);
    lemma_span(CharClass::Name, name, seq!['+'] + rest);
    assert((seq!['!'] + rest).skip(1) =~= rest);
    assert((seq!['*'] + rest).skip(1) =~= rest);
    assert((seq!['+'] + rest).skip(1) =~= rest);
    if rest.len() == 0 || !CharClass::Name.has(rest[0]) {
        lemma_span(CharClass::Name, name, rest);
    }
}

/// A dash and a character are a short name exactly if the character is an ASCII letter, whatever
/// blanks stand before the dash.
pub proof fn short_names_are_read(blanks: Seq<char>, c: char, rest: Seq<char>)
    requires
        CharClass::Blank.covers(blanks),
    ensures
        arg_short(blanks + (seq!['-', c] + rest)) == (if ascii_alphabetic(c) {
            Some((rest, c))
        } else {
            None
        }),
{
    let dashed = seq!['-', c] + rest;
    lemma_span(CharClass::Blank, blanks, dashed);
    assert(dashed.skip(1)[0] == c);
    assert(dashed.skip(1).skip(1) =~= rest);
}

/// Upper-case letters and dashes between `<` and `>`, behind one blank or more, are a value
/// notation.
pub proof fn value_notations_are_read(blanks: Seq<char>, v: Seq<char>, rest: Seq<char>)
    requires
        CharClass::Blank.covers(blanks),
        blanks.len() > 0,
        CharClass::ValueName.covers(v),
    ensures
        arg_value_notation(blanks + (seq!['<'] + (v + (seq!['>'] + rest)))) == Some((rest, v)),
{
    let closed = seq!['>'] + rest;
    let opened = seq!['<'] + (v + closed);
    lemma_span(CharClass::Blank, blanks, opened);
    assert(opened.skip(1) =~= v + closed);
    lemma_span(CharClass::ValueName, v, closed);
    assert(closed.skip(1) =~= rest);
}

/// What holds of every option that is read from a text.
pub open spec fn well_formed_option(a: ArgModel) -> bool {
    &&& a.kind == ArgKind::Option
    &&& CharClass::Name.covers(a.name)
    &&& plain_short(a.short)
    &&& plain_summary(a.summary)
    &&& a.value_name matches Some(v) ==> CharClass::ValueName.covers(v)
    &&& a.choices is Some || a.default is Some ==> !a.multiple && !a.required
    &&& a.choices matches Some(vs) ==> vs.len() >= 2 && (a.default matches Some(d) ==> d == vs[0])
}

/// The choices or the default value of an option are readable in their places, and the first
/// choice, where it is no default, does not look like one.
pub open spec fn readable_values(a: ArgModel) -> bool {
    match (a.choices, a.default) {
        (Some(vs), default) => {
            &&& readable_choices(vs, seq![']'] + tail_text(a))
            &&& default is None ==> after_char(
                value_text(vs[0], CharClass::ChoiceText),
                '=',
            ) is None
        },
        (None, Some(d)) => readable_value(d, CharClass::DefaultText, tail_text(a)),
        (None, None) => true,
    }
}

/// The options that are read back from their text: besides being well-formed, their values are
/// readable, and their summary does not look like a value notation where there is none.
pub open spec fn readable_option(a: ArgModel) -> bool {
    &&& well_formed_option(a)
    &&& readable_values(a)
    &&& a.value_name is None ==> arg_value_notation(summary_text(a)) is None
}

/// Every option that is read from a text has a name of name characters, a trimmed summary, two
/// or more choices or none, a default that is the first of its choices, and no mark beside a
/// default or choices.
pub proof fn parsed_options_are_well_formed(s: Seq<char>)
    ensures
        option_arg(s) matches Some(a) ==> well_formed_option(a),
{
    if let Some(a) = option_arg(s) {
        let (start, short) = opt_short(s);
        let t = after_dashes(start)->0;
        let (left, arg) = option_name(t);
        lemma_run(CharClass::Name, t);
        let (last, value_name) = match arg_value_notation(left) {
            Some((rest, name)) => (rest, Some(name)),
            None => (left, None),
        };
        if value_name is Some {
            lemma_run(CharClass::ValueName, skip_blanks(left).skip(1));
        }
        trimming_twice_changes_nothing(last);
    }
}

/// The value notation and the summary are read from the text behind the name.
proof fn lemma_tail(a: ArgModel)
    requires
        plain_summary(a.summary),
        a.value_name matches Some(v) ==> CharClass::ValueName.covers(v),
    ensures
        match a.value_name {
            Some(v) => arg_value_notation(tail_text(a)) == Some((summary_text(a), v)),
            None => tail_text(a) == summary_text(a),
        },
        tail_text(a).len() == 0 || tail_text(a)[0] == ' ',
{
    if let Some(v) = a.value_name {
        assert(tail_text(a) =~= seq![' '] + (seq!['<'] + (v + (seq!['>'] + summary_text(a)))));
        value_notations_are_read(seq![' '], v, summary_text(a));
    }
}

/// What the long name of an option tells of it.
pub(crate) open spec fn name_part(a: ArgModel) -> ArgModel {
    ArgModel {
        choices: a.choices,
        default: a.default,
        multiple: a.multiple,
        required: a.required,
        ..ArgModel::named(a.name)
    }
}

/// The long name of an option is read back exactly if the values in it are readable.
proof fn lemma_option_name(a: ArgModel)
    requires
        well_formed_option(a),
    ensures
        option_name(a.option_name() + tail_text(a)).1 == name_part(a) <==> readable_values(a),
        readable_values(a) ==> option_name(a.option_name() + tail_text(a)).0 == tail_text(a),
{
    let tail = tail_text(a);
    let t = a.option_name() + tail;
    lemma_tail(a);
    match (a.choices, a.default) {
        (Some(vs), default) => {
            let follow = seq![']'] + tail;
            let bracket = seq!['['] + (choices_text(vs, default) + follow);
            assert(t =~= a.name + bracket);
            lemma_span(CharClass::Name, a.name, bracket);
            assert(bracket.skip(1) =~= choices_text(vs, default) + follow);
            assert(follow.skip(1) =~= tail);
            lemma_choices(vs, default, follow);
        },
        (None, Some(d)) => {
            let assign = seq!['='] + (value_text(d, CharClass::DefaultText) + tail);
            assert(t =~= a.name + assign);
            lemma_span(CharClass::Name, a.name, assign);
            assert(assign.skip(1) =~= value_text(d, CharClass::DefaultText) + tail);
            values_are_read_back(d, CharClass::DefaultText, tail);
        },
        (None, None) => {
            lemma_mark(a, tail);
        },
    }
}

/// The long name tells nothing of the other parts of an option.
pub(crate) proof fn lemma_name_part(t: Seq<char>)
    ensures
        option_name(t).1 == name_part(option_name(t).1),
{
}

/// An option is read back from the text in which it is written, exactly if it is readable.
pub proof fn options_are_read_back(a: ArgModel)
    ensures
        option_arg(a.text()) == Some(a) <==> readable_option(a),
{
    parsed_options_are_well_formed(a.text());
    if well_formed_option(a) {
        let t = a.option_name() + tail_text(a);
        lemma_option_segments(a);
        lemma_start(a, t);
        lemma_option_name(a);
        lemma_name_part(t);
        lemma_tail(a);
        lemma_end_text(a);
    }
}

/// The arguments that are read back from their text.
pub open spec fn readable(a: ArgModel) -> bool {
    match a.kind {
        ArgKind::Flag => readable_flag(a),
        ArgKind::Option => readable_option(a),
        ArgKind::Positional => readable_positional(a),
    }
}

/// A line that declares an argument: the tag of its kind, and its text.
pub open spec fn declaration(a: ArgModel) -> Seq<char> {
    seq!['#', ' '] + a.kind.tag() + seq![' '] + a.text()
}

/// The words of the tags.
pub(crate) proof fn lemma_words()
    ensures
        "describe"@ == seq!['d', 'e', 's', 'c', 'r', 'i', 'b', 'e'],
        "version"@ == seq!['v', 'e', 'r', 's', 'i', 'o', 'n'],
        "author"@ == seq!['a', 'u', 't', 'h', 'o', 'r'],
        "cmd"@ == seq!['c', 'm', 'd'],
        "option"@ == seq!['o', 'p', 't', 'i', 'o', 'n'],
        "arg"@ == seq!['a', 'r', 'g'],
        "flag"@ == seq!['f', 'l', 'a', 'g'],
        "@option"@ == seq!['@'] + "option"@,
        "@arg"@ == seq!['@'] + "arg"@,
        "@flag"@ == seq!['@'] + "flag"@,
{
    reveal_strlit("describe");
    reveal_strlit("version");
    reveal_strlit("author");
    reveal_strlit("cmd");
    reveal_strlit("option");
    reveal_strlit("arg");
    reveal_strlit("flag");
    reveal_strlit("@option");
    reveal_strlit("@arg");
    reveal_strlit("@flag");
    assert("describe"@ =~= seq!['d', 'e', 's', 'c', 'r', 'i', 'b', 'e']);
    assert("version"@ =~= seq!['v', 'e', 'r', 's', 'i', 'o', 'n']);
    assert("author"@ =~= seq!['a', 'u', 't', 'h', 'o', 'r']);
    assert("cmd"@ =~= seq!['c', 'm', 'd']);
    assert("option"@ =~= seq!['o', 'p', 't', 'i', 'o', 'n']);
    assert("arg"@ =~= seq!['a', 'r', 'g']);
    assert("flag"@ =~= seq!['f', 'l', 'a', 'g']);
    assert("@option"@ =~= seq!['@'] + "option"@);
    assert("@arg"@ =~= seq!['@'] + "arg"@);
    assert("@flag"@ =~= seq!['@'] + "flag"@);
}

/// A text that does not start with a word, told from one of its characters.
pub(crate) proof fn lemma_not_after(s: Seq<char>, word: Seq<char>, i: int)
    requires
        0 <= i < word.len(),
        i < s.len() ==> s[i] != word[i],
    ensures
        after(s, word) is None,
{
    if word.is_prefix_of(s) {
        assert(s.subrange(0, word.len() as int)[i] == s[i]);
    }
}

/// A text that starts with a word.
pub(crate) proof fn lemma_after(word: Seq<char>, rest: Seq<char>)
    ensures
        after(word + rest, word) == Some(rest),
{
    assert((word + rest).subrange(0, word.len() as int) =~= word);
    assert((word + rest).skip(word.len() as int) =~= rest);
}

/// Blanks before the text of an argument do not matter.
proof fn lemma_blanks_before(s: Seq<char>)
    ensures
        skip_blanks1(seq![' '] + s) == Some(skip_blanks(s)),
        skip_blanks(skip_blanks(s)) == skip_blanks(s),
{
    let t = seq![' '] + s;
    assert(t.drop_first() =~= s);
    lemma_run(CharClass::Blank, s);
    assert(CharClass::Blank.run(t) == 1 + CharClass::Blank.run(s));
    assert(skip_blanks(t) =~= skip_blanks(s));
    lemma_no_run(CharClass::Blank, skip_blanks(s));
}

/// What follows the `@` of a declaration.
proof fn lemma_declaration(a: ArgModel, word: Seq<char>)
    requires
        a.kind.tag() == seq!['@'] + word,
    ensures
        tag_body(declaration(a)) == Some(word + (seq![' '] + a.text())),
{
    let body = word + (seq![' '] + a.text());
    let at = seq!['@'] + body;
    let s = declaration(a);
    assert(s.skip(1) =~= seq![' '] + at);
    lemma_span(CharClass::Blank, seq![' '], at);
    assert(at.skip(1) =~= body);
}

/// The tag of a kind gives the text behind it to the parser of that kind.
proof fn lemma_declared(a: ArgModel)
    ensures
        ({
            let body = tag_body(declaration(a))->0;
            let start = skip_blanks(a.text());
            &&& tag_body(declaration(a)) is Some
            &&& text_tag(body, "describe"@) is None
            &&& text_tag(body, "version"@) is None
            &&& text_tag(body, "author"@) is None
            &&& text_tag(body, "cmd"@) is None
            &&& declared_arg(body) == match a.kind {
                ArgKind::Flag => flag_arg(start),
                ArgKind::Option => option_arg(start),
                ArgKind::Positional => positional_arg(start),
            }
        }),
{
    lemma_words();
    let word = match a.kind {
        ArgKind::Flag => "flag"@,
        ArgKind::Option => "option"@,
        ArgKind::Positional => "arg"@,
    };
    let rest = seq![' '] + a.text();
    let body = word + rest;
    lemma_declaration(a, word);
    lemma_after(word, rest);
    lemma_blanks_before(a.text());
    assert(body[0] == word[0] && body[1] == word[1]);
    lemma_not_after(body, "describe"@, 0);
    lemma_not_after(body, "version"@, 0);
    lemma_not_after(body, "author"@, 1);
    lemma_not_after(body, "cmd"@, 0);
    match a.kind {
        ArgKind::Flag => {
            lemma_not_after(body, "option"@, 0);
            lemma_not_after(body, "arg"@, 0);
        },
        ArgKind::Option => {},
        ArgKind::Positional => {
            lemma_not_after(body, "option"@, 0);
        },
    }
}

/// A line that is written for an argument declares that argument, and leaves no text, exactly if
/// the argument is readable.
pub proof fn declarations_are_read_back(a: ArgModel)
    ensures
        line(declaration(a)) == (Seq::<char>::empty(), Some(DataModel::Arg(a))) <==> readable(a),
{
    lemma_declared(a);
    let s = a.text();
    let start = skip_blanks(s);
    lemma_blanks_before(s);
    match a.kind {
        ArgKind::Flag => {
            flags_are_read_back(a);
            lemma_flag_segments(a);
            assert(s[0] == '-');
            lemma_no_run(CharClass::Blank, s);
        },
        ArgKind::Option => {
            options_are_read_back(a);
            lemma_option_segments(a);
            assert(s[0] == '-');
            lemma_no_run(CharClass::Blank, s);
        },
        ArgKind::Positional => {
            positionals_are_read_back(a);
        },
    }
}

/// A flag or a positional argument that was read from any text is read again, unchanged, from
/// the text in which it is written; so is an option whose values are readable and whose summary
/// does not look like a value notation.
pub proof fn rewriting_changes_nothing(s: Seq<char>)
    ensures
        flag_arg(s) matches Some(a) ==> flag_arg(a.text()) == Some(a),
        positional_arg(s) matches Some(a) ==> positional_arg(a.text()) == Some(a),
        option_arg(s) matches Some(a) ==> (option_arg(a.text()) == Some(a) <==> readable_values(a)
            && (a.value_name is None ==> arg_value_notation(summary_text(a)) is None)),
{
    parsed_flags_are_readable(s);
    parsed_positionals_are_readable(s);
    parsed_options_are_well_formed(s);
    if let Some(a) = flag_arg(s) {
        flags_are_read_back(a);
    }
    if let Some(a) = positional_arg(s) {
        positionals_are_read_back(a);
    }
    if let Some(a) = option_arg(s) {
        options_are_read_back(a);
    }
}

} // verus!
