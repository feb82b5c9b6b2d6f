//! What holds of every line and of every script.

use crate::chars::lemma_run;
use crate::chars::CharClass;
use crate::event::DataModel;
use crate::event::EventModel;
use crate::grammar::declared_arg;
use crate::grammar::events;
use crate::grammar::flag_arg;
use crate::grammar::function;
use crate::grammar::line;
use crate::grammar::line_events;
use crate::grammar::option_arg;
use crate::grammar::positional_arg;
use crate::grammar::skip_blanks;
use crate::grammar::tag_body;
use crate::grammar::text_tag;
use crate::notation::lemma_after;
use crate::notation::lemma_no_run;
use crate::notation::lemma_not_after;
use crate::notation::lemma_span;
use crate::notation::lemma_words;
use crate::text::text_lines;
use crate::text::trimmed;
use vstd::prelude::*;

verus! {

/// A line that starts as a tag always declares something, and no function.
pub proof fn every_tag_is_reported(s: Seq<char>)
    requires
        tag_body(s) is Some,
    ensures
        line(s).1 is Some,
        !(line(s).1->0 is Func),
{
}

/// A tag that is unknown, or not written as it should be, is reported under its first word; and
/// only such a tag is.
pub proof fn only_unknown_tags_are_unexpected(s: Seq<char>, name: Seq<char>)
    ensures
        line(s).1 == Some(DataModel::Unexpect(name)) <==> {
            &&& tag_body(s) matches Some(body)
            &&& text_tag(body, "describe"@) is None
            &&& text_tag(body, "version"@) is None
            &&& text_tag(body, "author"@) is None
            &&& text_tag(body, "cmd"@) is None
            &&& declared_arg(body) is None
            &&& name == CharClass::Name.head(body)
        },
{
}

/// What follows the `@` of a tag, whatever blanks stand before the `@`.
pub(crate) proof fn lemma_tag_body(blanks: Seq<char>, body: Seq<char>)
    requires
        CharClass::Blank.covers(blanks),
    ensures
        tag_body(seq!['#'] + (blanks + (seq!['@'] + body))) == Some(body),
{
    let at = seq!['@'] + body;
    let s = seq!['#'] + (blanks + at);
    assert(s.skip(1) =~= blanks + at);
    lemma_span(CharClass::Blank, blanks, at);
    assert(at.skip(1) =~= body);
}

/// Blanks between the `#` and the `@` of a tag do not matter.
pub proof fn blanks_before_a_tag_do_not_matter(blanks: Seq<char>, body: Seq<char>)
    requires
        CharClass::Blank.covers(blanks),
    ensures
        tag_body(seq!['#'] + (blanks + (seq!['@'] + body))) == Some(body),
        tag_body(seq!['#', '@'] + body) == Some(body),
        line(seq!['#'] + (blanks + (seq!['@'] + body))) == line(seq!['#', '@'] + body),
{
    let none = Seq::<char>::empty();
    lemma_tag_body(blanks, body);
    lemma_tag_body(none, body);
    assert(seq!['#'] + (none + (seq!['@'] + body)) =~= seq!['#', '@'] + body);
}

/// The tags `describe`, `version`, `author` and `cmd` are read with any text behind a blank, and
/// with none; the text is trimmed.
pub proof fn text_tags_are_recognised(blanks: Seq<char>, text: Seq<char>)
    requires
        CharClass::Blank.covers(blanks),
        text.len() == 0 || CharClass::Blank.has(text[0]),
    ensures
        line(seq!['#'] + (blanks + (seq!['@'] + ("describe"@ + text)))) == (
            Seq::<char>::empty(),
            Some(DataModel::Describe(trimmed(text))),
        ),
        line(seq!['#'] + (blanks + (seq!['@'] + ("version"@ + text)))) == (
            Seq::<char>::empty(),
            Some(DataModel::Version(trimmed(text))),
        ),
        line(seq!['#'] + (blanks + (seq!['@'] + ("author"@ + text)))) == (
            Seq::<char>::empty(),
            Some(DataModel::Author(trimmed(text))),
        ),
        line(seq!['#'] + (blanks + (seq!['@'] + ("cmd"@ + text)))) == (
            Seq::<char>::empty(),
            Some(DataModel::Cmd(trimmed(text))),
        ),
{
    lemma_words();
    lemma_tag_body(blanks, "describe"@ + text);
    lemma_tag_body(blanks, "version"@ + text);
    lemma_tag_body(blanks, "author"@ + text);
    lemma_tag_body(blanks, "cmd"@ + text);
    lemma_after("describe"@, text);
    lemma_after("version"@, text);
    lemma_after("author"@, text);
    lemma_after("cmd"@, text);
    lemma_not_after("version"@ + text, "describe"@, 0);
    lemma_not_after("author"@ + text, "describe"@, 0);
    lemma_not_after("author"@ + text, "version"@, 0);
    lemma_not_after("cmd"@ + text, "describe"@, 0);
    lemma_not_after("cmd"@ + text, "version"@, 0);
    lemma_not_after("cmd"@ + text, "author"@, 0);
}

/// Behind the word of a tag that declares an argument there is a blank, and more blanks do not
/// matter.
pub proof fn blanks_behind_an_argument_tag_do_not_matter(blanks: Seq<char>, text: Seq<char>)
    requires
        CharClass::Blank.covers(blanks),
        blanks.len() > 0,
    ensures
        declared_arg("option"@ + (blanks + text)) == option_arg(text),
        declared_arg("arg"@ + (blanks + text)) == positional_arg(text),
        declared_arg("flag"@ + (blanks + text)) == flag_arg(text),
{
    let rest = blanks + text;
    let left = skip_blanks(text);
    lemma_words();
    lemma_after("option"@, rest);
    lemma_after("arg"@, rest);
    lemma_after("flag"@, rest);
    lemma_not_after("arg"@ + rest, "option"@, 0);
    lemma_not_after("flag"@ + rest, "option"@, 0);
    lemma_not_after("flag"@ + rest, "arg"@, 0);
    assert(CharClass::Blank.has(rest[0])) by {
        assert(rest[0] == blanks[0]);
    }
    lemma_blanks(blanks, text);
    lemma_run(CharClass::Blank, text);
    let skipped = CharClass::Blank.head(text);
    assert(text =~= skipped + left);
    leading_blanks_do_not_matter(skipped, left);
}

/// A name before a pair of parentheses is a function, whatever blanks stand around the name and
/// between the parentheses. The one name that is not is the keyword, where a blank follows it.
pub proof fn functions_are_recognised(
    before: Seq<char>,
    name: Seq<char>,
    behind: Seq<char>,
    inside: Seq<char>,
    rest: Seq<char>,
)
    requires
        CharClass::Blank.covers(before),
        CharClass::Name.covers(name),
        CharClass::Blank.covers(behind),
        CharClass::Blank.covers(inside),
        !(name == "function"@ && behind.len() > 0),
    ensures
        line(before + (name + (behind + (seq!['('] + (inside + (seq![')'] + rest)))))) == (
            rest,
            Some(DataModel::Func(name)),
        ),
{
    let close = seq![')'] + rest;
    let open = seq!['('] + (inside + close);
    let after_name = behind + open;
    let start = name + after_name;
    let s = before + start;
    reveal_strlit("function");
    assert(after_name[0] == '(' || CharClass::Blank.has(after_name[0])) by {
        if behind.len() > 0 {
            assert(after_name[0] == behind[0]);
        }
    }
    assert(start[0] == after_name[0] || CharClass::Name.has(start[0])) by {
        if name.len() > 0 {
            assert(start[0] == name[0]);
        }
    }
    assert(tag_body(s) is None) by {
        if before.len() > 0 {
            assert(s[0] == before[0]);
        }
    }
    lemma_blanks(before, start);
    if name.len() > 0 {
        lemma_no_run(CharClass::Blank, start);
    }
    lemma_span(CharClass::Name, name, after_name);
    lemma_span(CharClass::Blank, behind, open);
    lemma_span(CharClass::Blank, inside, close);
    assert(open.skip(1) =~= inside + close);
    assert(close.skip(1) =~= rest);
    if name.len() == 0 {
        assert(start =~= behind + open);
        assert(skip_blanks(s) == open);
        lemma_no_run(CharClass::Blank, open);
        assert(CharClass::Name.run(open) == 0);
        assert(open.skip(0) =~= open);
        assert(open.take(0) =~= name);
        lemma_not_after(open, "function"@, 0);
    } else {
        lemma_keyword(name, after_name);
    }
}

/// A text that starts with a name starts with the keyword and a blank only if the name is the
/// keyword.
proof fn lemma_keyword(name: Seq<char>, rest: Seq<char>)
    requires
        CharClass::Name.covers(name),
        rest.len() > 0,
        !CharClass::Name.has(rest[0]),
        name == "function"@ ==> !CharClass::Blank.has(rest[0]),
    ensures
        match crate::text::after(name + rest, "function"@) {
            Some(t) => CharClass::Blank.run(t) == 0,
            None => true,
        },
{
    reveal_strlit("function");
    let word = "function"@;
    let s = name + rest;
    if word.is_prefix_of(s) {
        let n = word.len() as int;
        assert forall|i: int| 0 <= i < n implies s[i] == #[trigger] word[i] by {
            assert(s.subrange(0, n)[i] == s[i]);
        }
        if name.len() < n {
            assert(s[name.len() as int] == rest[0]);
            assert(CharClass::Name.has(word[name.len() as int]));
        } else if name.len() == n {
            assert(name =~= word);
        } else {
            assert(s.skip(n)[0] == name[n]);
        }
    }
}

/// A name behind the keyword is a function, whatever blanks stand before the keyword and between
/// it and the name; the blanks and the name go as far as they can.
pub proof fn keyword_functions_are_recognised(
    before: Seq<char>,
    between: Seq<char>,
    name: Seq<char>,
    rest: Seq<char>,
)
    requires
        CharClass::Blank.covers(before),
        CharClass::Blank.covers(between),
        between.len() > 0,
        CharClass::Name.covers(name),
        rest.len() > 0 ==> !CharClass::Name.has(rest[0]),
        name.len() == 0 && rest.len() > 0 ==> !CharClass::Blank.has(rest[0]),
    ensures
        line(before + ("function"@ + (between + (name + rest)))) == (
            rest,
            Some(DataModel::Func(name)),
        ),
{
    let last = name + rest;
    let start = "function"@ + (between + last);
    let s = before + start;
    reveal_strlit("function");
    assert(start[0] == 'f');
    assert(tag_body(s) is None) by {
        if before.len() > 0 {
            assert(s[0] == before[0]);
        }
    }
    lemma_blanks(before, start);
    lemma_no_run(CharClass::Blank, start);
    lemma_after("function"@, between + last);
    assert(last.len() == 0 || !CharClass::Blank.has(last[0])) by {
        if name.len() > 0 {
            assert(last[0] == name[0]);
        } else {
            assert(last =~= rest);
        }
    }
    lemma_span(CharClass::Blank, between, last);
    lemma_span(CharClass::Name, name, rest);
}

/// The text that a line leaves is the end of that line.
pub proof fn the_rest_is_a_suffix(s: Seq<char>)
    ensures
        line(s).0.is_suffix_of(s),
{
    lemma_suffix_self(s);
    lemma_suffix_empty(s);
    if let Some(body) = tag_body(s) {
        lemma_suffix_skip(s, s, 1);
        let t = s.skip(1);
        lemma_suffix_tail(s, t, CharClass::Blank);
        lemma_suffix_skip(s, skip_blanks(t), 1);
        lemma_suffix_tail(s, body, CharClass::Name);
    } else if let Some((rest, name)) = function(s) {
        lemma_suffix_tail(s, s, CharClass::Blank);
        let start = skip_blanks(s);
        if crate::grammar::fn_keyword(s) is Some {
            let t = start.skip("function"@.len() as int);
            lemma_suffix_skip(s, start, "function"@.len() as int);
            lemma_suffix_tail(s, t, CharClass::Blank);
            lemma_suffix_tail(s, skip_blanks(t), CharClass::Name);
        } else {
            lemma_suffix_tail(s, start, CharClass::Name);
            let t = CharClass::Name.tail(start);
            lemma_suffix_tail(s, t, CharClass::Blank);
            lemma_suffix_skip(s, skip_blanks(t), 1);
            let u = skip_blanks(t).skip(1);
            lemma_suffix_tail(s, u, CharClass::Blank);
            lemma_suffix_skip(s, skip_blanks(u), 1);
        }
    }
}

proof fn lemma_suffix_self(s: Seq<char>)
    ensures
        s.is_suffix_of(s),
{
    assert(s.subrange(0, s.len() as int) =~= s);
}

proof fn lemma_suffix_empty(s: Seq<char>)
    ensures
        Seq::<char>::empty().is_suffix_of(s),
{
    assert(s.subrange(s.len() as int, s.len() as int) =~= Seq::<char>::empty());
}

/// The end of a suffix is a suffix.
proof fn lemma_suffix_skip(s: Seq<char>, t: Seq<char>, n: int)
    requires
        t.is_suffix_of(s),
        0 <= n <= t.len(),
    ensures
        t.skip(n).is_suffix_of(s),
{
    let u = t.skip(n);
    assert(u =~= s.subrange(s.len() - u.len(), s.len() as int));
}

/// What follows a run in a suffix is a suffix.
proof fn lemma_suffix_tail(s: Seq<char>, t: Seq<char>, class: CharClass)
    requires
        t.is_suffix_of(s),
    ensures
        class.tail(t).is_suffix_of(s),
{
    lemma_run(class, t);
    lemma_suffix_skip(s, t, class.run(t) as int);
}

/// Blanks at the start of a function, or of what is written behind the tag of an argument, do
/// not matter.
pub proof fn leading_blanks_do_not_matter(blanks: Seq<char>, s: Seq<char>)
    requires
        CharClass::Blank.covers(blanks),
    ensures
        function(blanks + s) == function(s),
        positional_arg(blanks + s) == positional_arg(s),
        flag_arg(blanks + s) == flag_arg(s),
        option_arg(blanks + s) == option_arg(s),
{
    lemma_blanks(blanks, s);
}

/// Blanks at the start are skipped together with those that follow.
proof fn lemma_blanks(blanks: Seq<char>, s: Seq<char>)
    requires
        CharClass::Blank.covers(blanks),
    ensures
        skip_blanks(blanks + s) == skip_blanks(s),
{
    let n = (blanks.len() + CharClass::Blank.run(s)) as int;
    lemma_run(CharClass::Blank, s);
    let all = blanks + s;
    assert forall|i: int| 0 <= i < n implies CharClass::Blank.has(#[trigger] all.take(n)[i]) by {
        if i < blanks.len() {
            assert(blanks[i] == all[i]);
        } else {
            assert(s.take(CharClass::Blank.run(s) as int)[i - blanks.len()] == all[i]);
        }
    }
    crate::chars::lemma_run_is(CharClass::Blank, all, n);
    assert(skip_blanks(all) =~= skip_blanks(s));
}

/// Each event stands for the line whose number it has, the events are in the order of their
/// lines, and every line that declares something has its event.
pub proof fn events_stand_for_their_lines(source: Seq<char>)
    ensures
        ({
            let lines = text_lines(source);
            let found = events(source);
            &&& forall|i: int|
                0 <= i < found.len() ==> 1 <= (#[trigger] found[i]).position <= lines.len() && line(
                    lines[found[i].position - 1],
                ).1 == Some(found[i].data)
            &&& forall|i: int, j: int|
                0 <= i < j < found.len() ==> (#[trigger] found[i]).position < (
                #[trigger] found[j]).position
            &&& forall|n: int|
                0 <= n < lines.len() && line(#[trigger] lines[n]).1 is Some ==> exists|i: int|
                    0 <= i < found.len() && (#[trigger] found[i]).position == n + 1
        }),
{
    lemma_line_events(text_lines(source));
}

proof fn lemma_line_events(lines: Seq<Seq<char>>)
    ensures
        ({
            let found = line_events(lines);
            &&& forall|i: int|
                0 <= i < found.len() ==> 1 <= (#[trigger] found[i]).position <= lines.len() && line(
                    lines[found[i].position - 1],
                ).1 == Some(found[i].data)
            &&& forall|i: int, j: int|
                0 <= i < j < found.len() ==> (#[trigger] found[i]).position < (
                #[trigger] found[j]).position
            &&& forall|n: int|
                0 <= n < lines.len() && line(#[trigger] lines[n]).1 is Some ==> exists|i: int|
                    0 <= i < found.len() && (#[trigger] found[i]).position == n + 1
        }),
    decreases lines.len(),
{
    if lines.len() > 0 {
        let earlier_lines = lines.drop_last();
        lemma_line_events(earlier_lines);
        let earlier = line_events(earlier_lines);
        let found = line_events(lines);
        assert forall|n: int|
            0 <= n < lines.len() && line(#[trigger] lines[n]).1 is Some implies exists|i: int|
            0 <= i < found.len() && (#[trigger] found[i]).position == n + 1 by {
            if n < earlier_lines.len() {
                assert(earlier_lines[n] == lines[n]);
                let i = choose|i: int|
                    0 <= i < earlier.len() && (#[trigger] earlier[i]).position == n + 1;
                assert(found[i] == earlier[i]);
            } else {
                assert(found[found.len() - 1].position == n + 1);
            }
        }
    }
}

/// Events whose lines stand `by` lines further down.
pub open spec fn moved_down(found: Seq<EventModel>, by: nat) -> Seq<EventModel> {
    Seq::new(
        found.len(),
        |i: int| EventModel { data: found[i].data, position: found[i].position + by },
    )
}

/// A script behind another one, which ends with its last line, has its own events, further down.
pub proof fn scripts_can_be_joined(first: Seq<char>, second: Seq<char>)
    requires
        first.len() == 0 || first.last() == '\n',
    ensures
        text_lines(first + second) == text_lines(first) + text_lines(second),
        events(first + second) == events(first) + moved_down(
            events(second),
            text_lines(first).len(),
        ),
{
    lemma_lines_concat(first, second);
    lemma_events_concat(text_lines(first), text_lines(second));
}

proof fn lemma_lines_concat(first: Seq<char>, second: Seq<char>)
    requires
        first.len() == 0 || first.last() == '\n',
    ensures
        text_lines(first + second) == text_lines(first) + text_lines(second),
    decreases first.len(),
{
    if first.len() == 0 {
        assert(first + second =~= second);
        assert(text_lines(first) + text_lines(second) =~= text_lines(second));
    } else {
        let class = CharClass::LineText;
        let all = first + second;
        lemma_run(class, first);
        let n = class.run(first) as int;
        if n == first.len() {
            assert(first.take(n)[n - 1] == first.last());
        }
        assert(all.take(n) =~= first.take(n));
        crate::chars::lemma_run_is(class, all, n);
        let left = class.tail(first).skip(1);
        assert(class.tail(all) =~= class.tail(first) + second);
        assert(class.tail(all).skip(1) =~= left + second);
        if left.len() > 0 {
            assert(left.last() == first.last());
        }
        lemma_lines_concat(left, second);
        let line = seq![crate::text::without_cr(class.head(first))];
        assert(line + (text_lines(left) + text_lines(second)) =~= (line + text_lines(left))
            + text_lines(second));
    }
}

proof fn lemma_events_concat(first: Seq<Seq<char>>, second: Seq<Seq<char>>)
    ensures
        line_events(first + second) == line_events(first) + moved_down(
            line_events(second),
            first.len(),
        ),
    decreases second.len(),
{
    if second.len() == 0 {
        assert(first + second =~= first);
        assert(line_events(first) + moved_down(line_events(second), first.len()) =~= line_events(
            first,
        ));
    } else {
        assert((first + second).drop_last() =~= first + second.drop_last());
        assert((first + second).last() == second.last());
        lemma_events_concat(first, second.drop_last());
        assert(line_events(first + second) =~= line_events(first) + moved_down(
            line_events(second),
            first.len(),
        ));
    }
}

/// The text of one line with its line feed has that one line.
proof fn lemma_one_line(text: Seq<char>)
    requires
        CharClass::LineText.covers(text),
    ensures
        text_lines(text.push('\n')) == seq![crate::text::without_cr(text)],
        text.len() > 0 ==> text_lines(text) == seq![text],
{
    let class = CharClass::LineText;
    let ended = text + seq!['\n'];
    assert(text.push('\n') =~= ended);
    lemma_span(class, text, seq!['\n']);
    assert(seq!['\n'].skip(1) =~= Seq::<char>::empty());
    assert(text_lines(Seq::<char>::empty()) =~= Seq::empty());
    assert(text_lines(ended) =~= seq![crate::text::without_cr(text)]);
    assert(text + Seq::<char>::empty() =~= text);
    lemma_span(class, text, Seq::empty());
}

/// A text is made of whole lines and of what stands behind the last line feed.
proof fn lemma_last_line(s: Seq<char>) -> (k: int)
    ensures
        0 <= k <= s.len(),
        k == 0 || s[k - 1] == '\n',
        CharClass::LineText.covers(s.skip(k)),
    decreases s.len(),
{
    if s.len() == 0 || s.last() == '\n' {
        s.len() as int
    } else {
        let before = s.drop_last();
        let k = lemma_last_line(before);
        assert forall|i: int| 0 <= i < s.skip(k).len() implies CharClass::LineText.has(
            #[trigger] s.skip(k)[i],
        ) by {
            if i < before.skip(k).len() {
                assert(before.skip(k)[i] == s.skip(k)[i]);
            }
        }
        k
    }
}

/// A script has the same events with and without a line feed at its end.
pub proof fn the_last_line_feed_is_optional(s: Seq<char>)
    requires
        s.len() > 0,
        s.last() != '\n',
        s.last() != '\r',
    ensures
        text_lines(s.push('\n')) == text_lines(s),
        events(s.push('\n')) == events(s),
{
    let k = lemma_last_line(s);
    let whole = s.take(k);
    let last = s.skip(k);
    assert(s =~= whole + last);
    assert(s.push('\n') =~= whole + last.push('\n'));
    assert(last.last() == s.last());
    if k > 0 {
        assert(whole.last() == s[k - 1]);
    }
    lemma_lines_concat(whole, last);
    lemma_lines_concat(whole, last.push('\n'));
    lemma_one_line(last);
}

/// A carriage return before a line feed does not matter.
pub proof fn carriage_returns_do_not_matter(first: Seq<char>, second: Seq<char>)
    requires
        first.len() > 0 ==> first.last() != '\r',
    ensures
        text_lines(first + (seq!['\r', '\n'] + second)) == text_lines(
            first + (seq!['\n'] + second),
        ),
        events(first + (seq!['\r', '\n'] + second)) == events(first + (seq!['\n'] + second)),
{
    let k = lemma_last_line(first);
    let whole = first.take(k);
    let last = first.skip(k);
    let plain = last.push('\n');
    let marked = last.push('\r').push('\n');
    assert(first + (seq!['\n'] + second) =~= whole + (plain + second));
    assert(first + (seq!['\r', '\n'] + second) =~= whole + (marked + second));
    if k > 0 {
        assert(whole.last() == first[k - 1]);
    }
    lemma_lines_concat(whole, plain + second);
    lemma_lines_concat(whole, marked + second);
    lemma_lines_concat(plain, second);
    lemma_lines_concat(marked, second);
    lemma_one_line(last);
    lemma_one_line(last.push('\r'));
    assert(crate::text::without_cr(last.push('\r')) =~= last);
    if last.len() > 0 {
        assert(last.last() == first.last());
    }
}

} // verus!
