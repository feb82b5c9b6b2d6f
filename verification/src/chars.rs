//! Character classes of the tag grammar.

use vstd::prelude::*;

verus! {

/// A set of characters that a run of text can be made of.
#[derive(Clone, Copy, Debug, PartialEq, Eq, Structural)]
pub enum CharClass {
    /// Space or tab: what separates the words of a tag.
    Blank,
    /// A character of a name: ASCII letter, ASCII digit, `_` or `-`.
    Name,
    /// A character of a value notation such as `<FILE-PATH>`: `A` to `Z` or `-`.
    ValueName,
    /// A character with the Unicode property `White_Space`.
    Whitespace,
    /// A character of an unquoted default value: anything but white space.
    DefaultText,
    /// A character of an unquoted choice: anything but `|` and `]`.
    ChoiceText,
    /// A character inside a line: anything but a line feed.
    LineText,
}

/// ASCII letter.
pub open spec fn ascii_alphabetic(c: char) -> bool {
    'a' <= c <= 'z' || 'A' <= c <= 'Z'
}

/// The Unicode property `White_Space`.
pub open spec fn unicode_whitespace(c: char) -> bool {
    ||| '\u{9}' <= c <= '\u{d}'
    ||| c == ' '
    ||| c == '\u{85}'
    ||| c == '\u{a0}'
    ||| c == '\u{1680}'
    ||| '\u{2000}' <= c <= '\u{200a}'
    ||| c == '\u{2028}'
    ||| c == '\u{2029}'
    ||| c == '\u{202f}'
    ||| c == '\u{205f}'
    ||| c == '\u{3000}'
}

/// True exactly for the ASCII letters.
pub fn is_ascii_alphabetic(c: char) -> (r: bool)
    ensures
        r == ascii_alphabetic(c),
{
    ('a' <= c && c <= 'z') || ('A' <= c && c <= 'Z')
}

/// True exactly for the characters with the Unicode property `White_Space`.
pub fn is_whitespace(c: char) -> (r: bool)
    ensures
        r == unicode_whitespace(c),
{
    ('\u{9}' <= c && c <= '\u{d}') || c == ' ' || c == '\u{85}' || c == '\u{a0}' || c
        == '\u{1680}' || ('\u{2000}' <= c && c <= '\u{200a}') || c == '\u{2028}' || c
        == '\u{2029}' || c == '\u{202f}' || c == '\u{205f}' || c == '\u{3000}'
}

/// True for the characters that end an unquoted default value.
pub fn forbid_chars_default(c: char) -> (r: bool)
    ensures
        r == !CharClass::DefaultText.has(c),
{
    is_whitespace(c)
}

/// True for the characters that end an unquoted choice.
pub fn forbid_chars_choice(c: char) -> (r: bool)
    ensures
        r == !CharClass::ChoiceText.has(c),
{
    c == '|' || c == ']'
}

impl CharClass {
    /// Membership in the class.
    pub open spec fn has(self, c: char) -> bool {
        match self {
            CharClass::Blank => c == ' ' || c == '\t',
            CharClass::Name => ascii_alphabetic(c) || '0' <= c <= '9' || c == '_' || c == '-',
            CharClass::ValueName => 'A' <= c <= 'Z' || c == '-',
            CharClass::Whitespace => unicode_whitespace(c),
            CharClass::DefaultText => !unicode_whitespace(c),
            CharClass::ChoiceText => c != '|' && c != ']',
            CharClass::LineText => c != '\n',
        }
    }

    /// Tests membership in the class.
    pub fn contains(self, c: char) -> (r: bool)
        ensures
            r == self.has(c),
    {
        match self {
            CharClass::Blank => c == ' ' || c == '\t',
            CharClass::Name => is_ascii_alphabetic(c) || ('0' <= c && c <= '9') || c == '_' || c
                == '-',
            CharClass::ValueName => ('A' <= c && c <= 'Z') || c == '-',
            CharClass::Whitespace => is_whitespace(c),
            CharClass::DefaultText => !forbid_chars_default(c),
            CharClass::ChoiceText => !forbid_chars_choice(c),
            CharClass::LineText => c != '\n',
        }
    }

    /// Every character of `s` is in the class.
    pub open spec fn covers(self, s: Seq<char>) -> bool {
        forall|i: int| 0 <= i < s.len() ==> self.has(#[trigger] s[i])
    }

    /// Length of the longest prefix of `s` that is made of characters of the class.
    pub open spec fn run(self, s: Seq<char>) -> nat
        decreases s.len(),
    {
        if s.len() > 0 && self.has(s[0]) {
            1 + self.run(s.drop_first())
        } else {
            0
        }
    }

    /// The longest prefix of `s` that is made of characters of the class.
    pub open spec fn head(self, s: Seq<char>) -> Seq<char> {
        s.take(self.run(s) as int)
    }

    /// What follows the longest prefix of `s` that is made of characters of the class.
    pub open spec fn tail(self, s: Seq<char>) -> Seq<char> {
        s.skip(self.run(s) as int)
    }
}

/// The run is a prefix in the class, and the character after it is not in the class.
pub proof fn lemma_run(class: CharClass, s: Seq<char>)
    ensures
        class.run(s) <= s.len(),
        class.covers(s.take(class.run(s) as int)),
        class.run(s) < s.len() ==> !class.has(s[class.run(s) as int]),
    decreases s.len(),
{
    if s.len() > 0 && class.has(s[0]) {
        let t = s.drop_first();
        lemma_run(class, t);
        assert forall|i: int| 0 <= i < class.run(s) implies class.has(
            #[trigger] s.take(class.run(s) as int)[i],
        ) by {
            if i > 0 {
                assert(t.take(class.run(t) as int)[i - 1] == s[i]);
            }
        }
    }
}

/// A prefix in the class that ends the text, or ends before a character outside the class, is
/// the run.
pub proof fn lemma_run_is(class: CharClass, s: Seq<char>, n: int)
    requires
        0 <= n <= s.len(),
        class.covers(s.take(n)),
        n < s.len() ==> !class.has(s[n]),
    ensures
        class.run(s) == n,
    decreases s.len(),
{
    if n > 0 {
        assert(s.take(n)[0] == s[0]);
        let t = s.drop_first();
        assert forall|i: int| 0 <= i < n - 1 implies class.has(#[trigger] t.take(n - 1)[i]) by {
            assert(s.take(n)[i + 1] == t[i]);
        }
        lemma_run_is(class, t, n - 1);
    }
}

} // verus!
