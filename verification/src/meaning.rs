//! What the definitions of the grammar and of the notation mean, in terms of the text alone.
//!
//! Each law takes a text apart into pieces, and says for exactly which pieces a definition gives
//! which result.

use crate::chars::ascii_alphabetic;
use crate::chars::lemma_run;
use crate::chars::unicode_whitespace;
use crate::chars::CharClass;
use crate::grammar::end_text;
use crate::grammar::non_empty;
use crate::grammar::skip_blanks;
use crate::grammar::skip_blanks1;
use crate::notation::escaped;
use crate::notation::lemma_span;
use crate::notation::lemma_trim_end;
use crate::text::after;
use crate::text::after_char;
use crate::text::joined;
use crate::text::separated;
use crate::text::text_lines;
use crate::text::trim_end;
use crate::text::trimmed;
use crate::text::without_cr;
use vstd::prelude::*;

verus! {

/// The characters of each class, by their code points.
pub proof fn classes_by_code_point(c: char)
    ensures
        ascii_alphabetic(c) <==> 65 <= c as u32 <= 90 || 97 <= c as u32 <= 122,
        CharClass::Blank.has(c) <==> c as u32 == 9 || c as u32 == 32,
        CharClass::Name.has(c) <==> 48 <= c as u32 <= 57 || 65 <= c as u32 <= 90 || 97 <= c as u32
            <= 122 || c as u32 == 45 || c as u32 == 95,
        CharClass::ValueName.has(c) <==> 65 <= c as u32 <= 90 || c as u32 == 45,
        CharClass::Whitespace.has(c) <==> 9 <= c as u32 <= 13 || c as u32 == 32 || c as u32 == 133
            || c as u32 == 160 || c as u32 == 5760 || 8192 <= c as u32 <= 8202 || c as u32 == 8232
            || c as u32 == 8233 || c as u32 == 8239 || c as u32 == 8287 || c as u32 == 12288,
        unicode_whitespace(c) <==> CharClass::Whitespace.has(c),
        CharClass::DefaultText.has(c) <==> !CharClass::Whitespace.has(c),
        CharClass::ChoiceText.has(c) <==> c as u32 != 124 && c as u32 != 93,
        CharClass::LineText.has(c) <==> c as u32 != 10,
{
}

/// A class covers a text if it has each of its characters.
pub proof fn covering_is_by_character(class: CharClass, s: Seq<char>)
    ensures
        class.covers(s) <==> (forall|c: char| s.contains(c) ==> class.has(c)),
{
    if class.covers(s) {
        assert forall|c: char| s.contains(c) implies class.has(c) by {
            let i = choose|i: int| 0 <= i < s.len() && s[i] == c;
            assert(class.has(s[i]));
        }
    }
    if forall|c: char| s.contains(c) ==> class.has(c) {
        assert forall|i: int| 0 <= i < s.len() implies class.has(#[trigger] s[i]) by {
            assert(s.contains(s[i]));
        }
    }
}

/// A text does not go on in the class.
pub open spec fn stops(class: CharClass, s: Seq<char>) -> bool {
    s.len() > 0 ==> !class.has(s[0])
}

/// A text is cut where it leaves the class.
pub proof fn runs_end_where_the_class_ends(
    class: CharClass,
    s: Seq<char>,
    a: Seq<char>,
    b: Seq<char>,
)
    ensures
        (class.head(s) == a && class.tail(s) == b) <==> (s == a + b && class.covers(a) && stops(
            class,
            b,
        )),
{
    lemma_split(class, s);
    if s == a + b && class.covers(a) && stops(class, b) {
        lemma_span(class, a, b);
    }
}

/// A text is made of its head and its tail.
pub(crate) proof fn lemma_split(class: CharClass, s: Seq<char>)
    ensures
        s == class.head(s) + class.tail(s),
        class.covers(class.head(s)),
        stops(class, class.tail(s)),
        class.run(s) == class.head(s).len(),
{
    lemma_run(class, s);
    assert(s =~= class.head(s) + class.tail(s));
}

/// `t` is what is left of `s` without the white space at both its ends.
pub open spec fn is_trim_of(t: Seq<char>, s: Seq<char>) -> bool {
    &&& t.len() > 0 ==> !CharClass::Whitespace.has(t[0]) && !CharClass::Whitespace.has(t.last())
    &&& exists|w1: Seq<char>, w2: Seq<char>|
        CharClass::Whitespace.covers(w1) && CharClass::Whitespace.covers(w2) && s == #[trigger] (w1
            + t + w2)
}

/// What is cut off at the end is white space.
proof fn lemma_trim_end_cuts(s: Seq<char>)
    ensures
        CharClass::Whitespace.covers(s.skip(trim_end(s).len() as int)),
    decreases s.len(),
{
    lemma_trim_end(s);
    if s.len() > 0 && CharClass::Whitespace.has(s.last()) {
        let t = s.drop_last();
        let n = trim_end(s).len() as int;
        lemma_trim_end_cuts(t);
        lemma_trim_end(t);
        assert forall|i: int| 0 <= i < s.skip(n).len() implies CharClass::Whitespace.has(
            #[trigger] s.skip(n)[i],
        ) by {
            if i < t.skip(n).len() {
                assert(t.skip(n)[i] == s.skip(n)[i]);
            }
        }
    }
}

/// White space at the end is cut off.
proof fn lemma_trim_end_is(t: Seq<char>, w: Seq<char>)
    requires
        t.len() > 0 ==> !CharClass::Whitespace.has(t.last()),
        CharClass::Whitespace.covers(w),
    ensures
        trim_end(t + w) == t,
    decreases w.len(),
{
    if w.len() == 0 {
        assert(t + w =~= t);
    } else {
        assert((t + w).last() == w[w.len() - 1]);
        assert((t + w).drop_last() =~= t + w.drop_last());
        lemma_trim_end_is(t, w.drop_last());
    }
}

/// A trimmed text is what is left of the text.
proof fn lemma_trimmed(s: Seq<char>)
    ensures
        is_trim_of(trimmed(s), s),
{
    let class = CharClass::Whitespace;
    let t = trimmed(s);
    let u = class.tail(s);
    let w1 = class.head(s);
    let w2 = u.skip(t.len() as int);
    lemma_split(class, s);
    lemma_trim_end(u);
    lemma_trim_end_cuts(u);
    assert(s =~= w1 + t + w2);
    crate::notation::trimming_twice_changes_nothing(s);
}

/// What stands between white space is the trimmed text.
proof fn lemma_trimmed_is(w1: Seq<char>, t: Seq<char>, w2: Seq<char>)
    requires
        t.len() > 0 ==> !CharClass::Whitespace.has(t[0]) && !CharClass::Whitespace.has(t.last()),
        CharClass::Whitespace.covers(w1),
        CharClass::Whitespace.covers(w2),
    ensures
        trimmed(w1 + t + w2) == t,
{
    let class = CharClass::Whitespace;
    let s = w1 + t + w2;
    if t.len() > 0 {
        let u = t + w2;
        assert(u[0] == t[0]);
        assert(s =~= w1 + u);
        lemma_span(class, w1, u);
        lemma_trim_end_is(t, w2);
    } else {
        assert forall|i: int| 0 <= i < s.len() implies class.has(#[trigger] s[i]) by {
            if i < w1.len() {
                assert(s[i] == w1[i]);
            } else {
                assert(s[i] == w2[i - w1.len()]);
            }
        }
        assert(s =~= s + Seq::<char>::empty());
        lemma_span(class, s, Seq::empty());
        assert(t =~= Seq::<char>::empty());
    }
}

/// Trimming removes the white space at both ends, and nothing else.
pub proof fn trimming_removes_only_white_space(s: Seq<char>, t: Seq<char>)
    ensures
        trimmed(s) == t <==> is_trim_of(t, s),
{
    lemma_trimmed(s);
    if is_trim_of(t, s) {
        let (w1, w2) = choose|w1: Seq<char>, w2: Seq<char>|
            CharClass::Whitespace.covers(w1) && CharClass::Whitespace.covers(w2) && s
                == #[trigger] (w1 + t + w2);
        lemma_trimmed_is(w1, t, w2);
    }
}

/// At the end, white space is cut off and nothing else; of carriage returns, one is cut off.
pub proof fn ends_are_cut_off(s: Seq<char>, w: Seq<char>)
    requires
        CharClass::Whitespace.covers(w),
    ensures
        s.len() == 0 || !CharClass::Whitespace.has(s.last()) ==> trim_end(s + w) == s,
        without_cr(s + seq!['\r']) == s,
        s.len() == 0 || s.last() != '\r' ==> without_cr(s) == s,
{
    if s.len() == 0 || !CharClass::Whitespace.has(s.last()) {
        lemma_trim_end_is(s, w);
    }
    assert((s + seq!['\r']).drop_last() =~= s);
}

/// A prefix is taken off only where the text starts with it.
pub proof fn prefixes_are_taken_off(s: Seq<char>, prefix: Seq<char>, c: char, rest: Seq<char>)
    ensures
        after(s, prefix) == Some(rest) <==> s == prefix + rest,
        after_char(s, c) == Some(rest) <==> s == seq![c] + rest,
{
    if after(s, prefix) == Some(rest) {
        assert(s =~= prefix + rest);
    }
    if s == prefix + rest {
        crate::notation::lemma_after(prefix, rest);
    }
    if after_char(s, c) == Some(rest) {
        assert(s =~= seq![c] + rest);
    }
    if s == seq![c] + rest {
        assert(s.skip(1) =~= rest);
    }
}

/// The lines of a text: none where there is no text; one where there is no line feed; and a line
/// feed, with or without a carriage return before it, ends a line.
pub proof fn lines_end_at_line_feeds(a: Seq<char>, b: Seq<char>)
    requires
        !a.contains('\n'),
    ensures
        text_lines(Seq::empty()) == Seq::<Seq<char>>::empty(),
        a.len() > 0 ==> text_lines(a) == seq![a],
        a.len() > 0 && a.last() == '\r' || text_lines(a + (seq!['\n'] + b)) == seq![a] + text_lines(
            b,
        ),
        text_lines(a + (seq!['\r', '\n'] + b)) == seq![a] + text_lines(b),
{
    let class = CharClass::LineText;
    assert(class.covers(a)) by {
        assert forall|i: int| 0 <= i < a.len() implies class.has(#[trigger] a[i]) by {
            assert(a.contains(a[i]));
        }
    }
    assert(a + Seq::<char>::empty() =~= a);
    lemma_span(class, a, Seq::empty());
    lemma_span(class, a, seq!['\n'] + b);
    assert((seq!['\n'] + b).skip(1) =~= b);
    let marked = a.push('\r');
    assert(a + (seq!['\r', '\n'] + b) =~= marked + (seq!['\n'] + b));
    lemma_span(class, marked, seq!['\n'] + b);
    assert(without_cr(marked) =~= a);
}

/// Joined parts have the separator between each two of them.
pub proof fn separators_stand_between(first: Seq<char>, others: Seq<Seq<char>>, sep: Seq<char>)
    ensures
        joined(Seq::empty(), sep) == Seq::<char>::empty(),
        joined(seq![first], sep) == first,
        others.len() > 0 ==> joined(seq![first] + others, sep) == first + sep + joined(others, sep),
{
    let all = seq![first] + others;
    assert(all.drop_first() =~= others);
    assert(seq![first].drop_first() =~= Seq::empty());
    assert(joined(seq![first], sep) =~= first);
    if others.len() > 0 {
        assert(first + (sep + others[0] + separated(others.drop_first(), sep)) =~= first + sep + (
        others[0] + separated(others.drop_first(), sep)));
    }
}

/// Blanks are skipped, all of them and nothing else.
pub proof fn blanks_are_skipped(s: Seq<char>, rest: Seq<char>)
    ensures
        skip_blanks(s) == rest <==> exists|b: Seq<char>|
            CharClass::Blank.covers(b) && stops(CharClass::Blank, rest) && s == #[trigger] (b + rest),
        skip_blanks1(s) == Some(rest) <==> exists|b: Seq<char>|
            b.len() > 0 && CharClass::Blank.covers(b) && stops(CharClass::Blank, rest) && s
                == #[trigger] (b + rest),
{
    let class = CharClass::Blank;
    lemma_split(class, s);
    if skip_blanks(s) == rest {
        assert(s == class.head(s) + rest);
    }
    if exists|b: Seq<char>| class.covers(b) && stops(class, rest) && s == #[trigger] (b + rest) {
        let b = choose|b: Seq<char>|
            class.covers(b) && stops(class, rest) && s == #[trigger] (b + rest);
        lemma_span(class, b, rest);
    }
    if exists|b: Seq<char>|
        b.len() > 0 && class.covers(b) && stops(class, rest) && s == #[trigger] (b + rest) {
        let b = choose|b: Seq<char>|
            b.len() > 0 && class.covers(b) && stops(class, rest) && s == #[trigger] (b + rest);
        lemma_span(class, b, rest);
    }
}

/// `s` ends a tag, and its text is `t`: it is empty, or starts with a blank, and `t` is trimmed.
pub open spec fn is_end(s: Seq<char>, t: Seq<char>) -> bool {
    (s.len() == 0 || s[0] == ' ' || s[0] == '\t') && is_trim_of(t, s)
}

/// A tag ends with the line or at a blank, and its text is all that follows, trimmed.
pub proof fn a_tag_ends_at_a_blank(s: Seq<char>, t: Seq<char>)
    ensures
        end_text(s) == Some(t) <==> is_end(s, t),
        non_empty(t) == (if t =~= Seq::<char>::empty() {
            None
        } else {
            Some(t)
        }),
{
    trimming_removes_only_white_space(s, t);
}

/// Each backslash stands before a quote, and each quote behind a backslash.
pub open spec fn paired(v: Seq<char>, q: char) -> bool {
    &&& forall|i: int|
        0 <= i < v.len() && #[trigger] v[i] == '\\' ==> i + 1 < v.len() && v[i + 1] == q
    &&& forall|i: int| 0 <= i < v.len() && #[trigger] v[i] == q ==> i > 0 && v[i - 1] == '\\'
}

/// What is paired stays so behind a pair, or behind a character that is neither.
proof fn lemma_pairs(v: Seq<char>, q: char, n: int)
    requires
        q != '\\',
        n == 1 && v.len() > 0 && v[0] != '\\' && v[0] != q || n == 2 && v.len() > 1 && v[0] == '\\'
            && v[1] == q,
    ensures
        paired(v, q) <==> paired(v.skip(n), q),
{
    let w = v.skip(n);
    if paired(v, q) {
        assert forall|i: int| 0 <= i < w.len() && #[trigger] w[i] == '\\' implies i + 1 < w.len()
            && w[i + 1] == q by {
            assert(v[i + n] == '\\');
        }
        assert forall|i: int| 0 <= i < w.len() && #[trigger] w[i] == q implies i > 0 && w[i - 1]
            == '\\' by {
            assert(v[i + n] == q);
        }
    }
    if paired(w, q) {
        assert forall|i: int| 0 <= i < v.len() && #[trigger] v[i] == '\\' implies i + 1 < v.len()
            && v[i + 1] == q by {
            if i >= n {
                assert(w[i - n] == '\\');
            }
        }
        assert forall|i: int| 0 <= i < v.len() && #[trigger] v[i] == q implies i > 0 && v[i - 1]
            == '\\' by {
            if i >= n {
                assert(w[i - n] == q);
            }
        }
    }
}

/// In an escaped text each backslash stands before a quote, and each quote behind a backslash.
pub proof fn escapes_pair_backslashes_and_quotes(v: Seq<char>, q: char)
    requires
        q != '\\',
    ensures
        escaped(v, q) <==> paired(v, q),
    decreases v.len(),
{
    if v.len() == 0 {
    } else if v[0] == '\\' {
        if v.len() > 1 && v[1] == q {
            let w = v.skip(2);
            escapes_pair_backslashes_and_quotes(w, q);
            lemma_pairs(v, q, 2);
        }
    } else if v[0] != q {
        let w = v.skip(1);
        escapes_pair_backslashes_and_quotes(w, q);
        lemma_pairs(v, q, 1);
    }
}

} // verus!
