//! Splitting of string slices at character positions, without copying.

use crate::chars::is_whitespace;
use crate::chars::CharClass;
use vstd::prelude::*;
use vstd::string::StringSliceAdditionalSpecFns;

verus! {

broadcast use vstd::string::group_string_axioms;

/// The contents of an optional string.
pub open spec fn opt_text(s: Option<&str>) -> Option<Seq<char>> {
    match s {
        Some(t) => Some(t@),
        None => None,
    }
}

/// `s` without the white space at its end.
pub open spec fn trim_end(s: Seq<char>) -> Seq<char>
    decreases s.len(),
{
    if s.len() > 0 && CharClass::Whitespace.has(s.last()) {
        trim_end(s.drop_last())
    } else {
        s
    }
}

/// `s` without the white space at both its ends.
pub open spec fn trimmed(s: Seq<char>) -> Seq<char> {
    trim_end(CharClass::Whitespace.tail(s))
}

/// What follows `prefix` at the start of `s`, if `s` starts with it.
pub open spec fn after(s: Seq<char>, prefix: Seq<char>) -> Option<Seq<char>> {
    if prefix.is_prefix_of(s) {
        Some(s.skip(prefix.len() as int))
    } else {
        None
    }
}

/// What follows the character `c` at the start of `s`, if `s` starts with it.
pub open spec fn after_char(s: Seq<char>, c: char) -> Option<Seq<char>> {
    if s.len() > 0 && s[0] == c {
        Some(s.skip(1))
    } else {
        None
    }
}

/// `s` without one carriage return at its end.
pub open spec fn without_cr(s: Seq<char>) -> Seq<char> {
    if s.len() > 0 && s.last() == '\r' {
        s.drop_last()
    } else {
        s
    }
}

/// Encoding distributes over concatenation.
proof fn lemma_encode_concat(a: Seq<char>, b: Seq<char>)
    ensures
        vstd::utf8::encode_utf8(a + b) == vstd::utf8::encode_utf8(a) + vstd::utf8::encode_utf8(b),
    decreases a.len(),
{
    if a.len() == 0 {
        assert(a + b =~= b);
        assert(vstd::utf8::encode_utf8(a) =~= Seq::<u8>::empty());
        assert(vstd::utf8::encode_utf8(a) + vstd::utf8::encode_utf8(b)
            =~= vstd::utf8::encode_utf8(b));
    } else {
        assert((a + b).drop_first() =~= a.drop_first() + b);
        lemma_encode_concat(a.drop_first(), b);
        assert(vstd::utf8::encode_utf8(a + b) =~= vstd::utf8::encode_utf8(a)
            + vstd::utf8::encode_utf8(b));
    }
}

/// The end of the encoding of `a` is a character boundary in the encoding of `a + b`.
proof fn lemma_boundary(a: Seq<char>, b: Seq<char>)
    ensures
        vstd::utf8::is_char_boundary(
            vstd::utf8::encode_utf8(a + b),
            vstd::utf8::encode_utf8(a).len() as int,
        ),
    decreases a.len(),
{
    let bytes = vstd::utf8::encode_utf8(a + b);
    vstd::utf8::encode_utf8_valid_utf8(a + b);
    if a.len() > 0 {
        assert((a + b).drop_first() =~= a.drop_first() + b);
        vstd::utf8::encode_utf8_first_scalar(a + b);
        lemma_encode_concat(a, b);
        assert(vstd::utf8::pop_first_scalar(bytes) =~= vstd::utf8::encode_utf8(
            a.drop_first() + b,
        ));
        lemma_boundary(a.drop_first(), b);
    }
}

/// The encoding of one character.
proof fn lemma_encode_one(c: char)
    ensures
        vstd::utf8::encode_utf8(seq![c]) == vstd::utf8::encode_scalar(c as u32),
{
    assert(seq![c].drop_first() =~= Seq::<char>::empty());
    assert(vstd::utf8::encode_utf8(seq![c].drop_first()) =~= Seq::<u8>::empty());
    assert(vstd::utf8::encode_utf8(seq![c]) =~= vstd::utf8::encode_scalar(c as u32));
}

/// Inside the encoding of the last character there is no character boundary.
proof fn lemma_no_boundary(a: Seq<char>, c: char, i: int)
    requires
        vstd::utf8::encode_utf8(a).len() < i < vstd::utf8::encode_utf8(a.push(c)).len(),
    ensures
        !vstd::utf8::is_char_boundary(vstd::utf8::encode_utf8(a.push(c)), i),
    decreases a.len(),
{
    let s = a.push(c);
    let bytes = vstd::utf8::encode_utf8(s);
    let rest = s.drop_first();
    vstd::utf8::encode_utf8_valid_utf8(s);
    vstd::utf8::encode_utf8_valid_utf8(rest);
    vstd::utf8::encode_utf8_first_scalar(s);
    assert(vstd::utf8::pop_first_scalar(bytes) =~= vstd::utf8::encode_utf8(rest));
    if a.len() == 0 {
        reveal_with_fuel(vstd::utf8::is_char_boundary, 2);
        assert(rest =~= Seq::<char>::empty());
        assert(vstd::utf8::encode_utf8(rest) =~= Seq::<u8>::empty());
    } else {
        assert(rest =~= a.drop_first().push(c));
        assert(s[0] == a[0]);
        lemma_no_boundary(a.drop_first(), c, i - vstd::utf8::length_of_first_scalar(bytes));
    }
}

/// Number of bytes of `c` in UTF-8.
fn utf8_width(c: char) -> (n: usize)
    ensures
        n == vstd::utf8::encode_scalar(c as u32).len(),
        1 <= n <= 4,
{
    let v: u32 = c as u32;
    if v <= 0x7f {
        1
    } else if v <= 0x7ff {
        2
    } else if v <= 0xffff {
        3
    } else {
        4
    }
}

/// Splits `s` after its first `k` characters, which take `bytes` bytes.
fn split_bytes<'a>(s: &'a str, bytes: usize, Ghost(k): Ghost<int>) -> (r: (&'a str, &'a str))
    requires
        0 <= k <= s@.len(),
        bytes == vstd::utf8::encode_utf8(s@.take(k)).len(),
    ensures
        r.0@ == s@.take(k),
        r.1@ == s@.skip(k),
{
    proof {
        assert(s@ =~= s@.take(k) + s@.skip(k));
        lemma_boundary(s@.take(k), s@.skip(k));
        lemma_encode_concat(s@.take(k), s@.skip(k));
    }
    let r = s.split_at(bytes);
    proof {
        assert(r.0.spec_bytes() =~= vstd::utf8::encode_utf8(s@.take(k)));
        assert(r.1.spec_bytes() =~= vstd::utf8::encode_utf8(s@.skip(k)));
        vstd::utf8::encode_utf8_decode_utf8(r.0@);
        vstd::utf8::encode_utf8_decode_utf8(r.1@);
        vstd::utf8::encode_utf8_decode_utf8(s@.take(k));
        vstd::utf8::encode_utf8_decode_utf8(s@.skip(k));
    }
    r
}

/// Splits `s` into its first character and the rest.
pub fn split_first<'a>(s: &'a str) -> (r: Option<(char, &'a str)>)
    ensures
        r is None <==> s@.len() == 0,
        r matches Some((c, rest)) ==> c == s@[0] && rest@ == s@.skip(1),
{
    let mut it = s.chars();
    match it.next() {
        None => None,
        Some(c) => {
            proof {
                assert(s@.take(1) =~= seq![c]);
                lemma_encode_one(c);
            }
            let (_, rest) = split_bytes(s, utf8_width(c), Ghost(1));
            Some((c, rest))
        },
    }
}

/// Splits `s` into its last character and what stands before it.
pub fn split_last<'a>(s: &'a str) -> (r: Option<(&'a str, char)>)
    ensures
        r is None <==> s@.len() == 0,
        r matches Some((rest, c)) ==> c == s@.last() && rest@ == s@.drop_last(),
{
    if s.is_empty() {
        return None;
    }
    let ghost before = s@.drop_last();
    let ghost end = vstd::utf8::encode_utf8(before).len();
    proof {
        assert(s@ =~= before + seq![s@.last()]);
        assert(s@ =~= before.push(s@.last()));
        lemma_boundary(before, seq![s@.last()]);
        lemma_encode_concat(before, seq![s@.last()]);
        lemma_encode_one(s@.last());
    }
    let mut i: usize = s.as_bytes().len() - 1;
    while !s.is_char_boundary(i)
        invariant
            s@ == before.push(s@.last()),
            end == vstd::utf8::encode_utf8(before).len(),
            end <= i < vstd::utf8::encode_utf8(s@).len(),
            vstd::utf8::is_char_boundary(vstd::utf8::encode_utf8(s@), end as int),
        decreases i,
    {
        i = i - 1;
    }
    proof {
        if end < i {
            lemma_no_boundary(before, s@.last(), i as int);
        }
        assert(s@.take(s@.len() - 1) =~= before);
    }
    let (rest, tail) = split_bytes(s, i, Ghost(s@.len() - 1));
    match split_first(tail) {
        Some((c, _)) => Some((rest, c)),
        None => None,
    }
}

/// What stands in `s` before `rest`, the end of `s`.
pub(crate) fn part_before<'a>(s: &'a str, rest: &str) -> (r: &'a str)
    requires
        rest@.is_suffix_of(s@),
    ensures
        r@ == s@.take(s@.len() - rest@.len()),
{
    let ghost k = s@.len() - rest@.len();
    proof {
        assert(s@ =~= s@.take(k) + rest@);
        lemma_encode_concat(s@.take(k), rest@);
    }
    let bytes: usize = s.as_bytes().len() - rest.as_bytes().len();
    let (part, _) = split_bytes(s, bytes, Ghost(k));
    part
}

/// Splits `s` into the longest prefix made of characters of the class, and the rest.
pub fn span<'a>(s: &'a str, class: CharClass) -> (r: (&'a str, &'a str))
    ensures
        r.0@ == class.head(s@),
        r.1@ == class.tail(s@),
{
    let mut left: &'a str = s;
    let ghost mut k: int = 0;
    assert(s@.skip(0) =~= s@);
    loop
        invariant
            0 <= k <= s@.len(),
            left@ == s@.skip(k),
            class.covers(s@.take(k)),
        ensures
            k < s@.len() ==> !class.has(s@[k]),
        decreases s@.len() - k,
    {
        match split_first(left) {
            None => {
                break;
            },
            Some((c, next)) => {
                if !class.contains(c) {
                    break;
                }
                left = next;
                proof {
                    assert(s@.skip(k).skip(1) =~= s@.skip(k + 1));
                    assert(s@.take(k + 1) =~= s@.take(k).push(c));
                    k = k + 1;
                }
            },
        }
    }
    proof {
        crate::chars::lemma_run_is(class, s@, k);
    }
    (part_before(s, left), left)
}

/// What follows the character `c` at the start of `s`.
pub fn strip_char<'a>(s: &'a str, c: char) -> (r: Option<&'a str>)
    ensures
        opt_text(r) == after_char(s@, c),
{
    match split_first(s) {
        Some((first, rest)) => if first == c {
            Some(rest)
        } else {
            None
        },
        None => None,
    }
}

/// What follows `prefix` at the start of `s`.
pub fn strip_prefix<'a>(s: &'a str, prefix: &str) -> (r: Option<&'a str>)
    ensures
        opt_text(r) == after(s@, prefix@),
{
    let mut left: &'a str = s;
    let mut wanted: &str = prefix;
    let ghost mut k: int = 0;
    proof {
        assert(s@.skip(0) =~= s@);
        assert(prefix@.skip(0) =~= prefix@);
    }
    loop
        invariant
            0 <= k <= s@.len(),
            k <= prefix@.len(),
            left@ == s@.skip(k),
            wanted@ == prefix@.skip(k),
            forall|i: int| 0 <= i < k ==> #[trigger] s@[i] == prefix@[i],
        ensures
            k == prefix@.len(),
        decreases s@.len() - k,
    {
        match split_first(wanted) {
            None => {
                break;
            },
            Some((w, wanted_next)) => match strip_char(left, w) {
                None => {
                    assert(prefix@.is_prefix_of(s@) ==> prefix@[k] == s@.subrange(
                        0,
                        prefix@.len() as int,
                    )[k]);
                    return None;
                },
                Some(next) => {
                    left = next;
                    wanted = wanted_next;
                    proof {
                        assert(s@.skip(k).skip(1) =~= s@.skip(k + 1));
                        assert(prefix@.skip(k).skip(1) =~= prefix@.skip(k + 1));
                        k = k + 1;
                    }
                },
            },
        }
    }
    assert(prefix@ =~= s@.subrange(0, prefix@.len() as int));
    Some(left)
}

/// `s` without the white space at its end.
fn strip_trailing_whitespace<'a>(s: &'a str) -> (r: &'a str)
    ensures
        r@ == trim_end(s@),
{
    let mut kept: &'a str = s;
    loop
        invariant
            trim_end(kept@) == trim_end(s@),
        ensures
            kept@ == trim_end(s@),
        decreases kept@.len(),
    {
        match split_last(kept) {
            Some((rest, c)) => {
                if !is_whitespace(c) {
                    break;
                }
                kept = rest;
            },
            None => {
                break;
            },
        }
    }
    kept
}

/// `s` without the white space at both its ends.
pub fn trim<'a>(s: &'a str) -> (r: &'a str)
    ensures
        r@ == trimmed(s@),
{
    let (_, rest) = span(s, CharClass::Whitespace);
    strip_trailing_whitespace(rest)
}

/// `s` without one carriage return at its end.
pub fn strip_cr<'a>(s: &'a str) -> (r: &'a str)
    ensures
        r@ == without_cr(s@),
{
    match split_last(s) {
        Some((rest, c)) => if c == '\r' {
            rest
        } else {
            s
        },
        None => s,
    }
}

/// The contents of a sequence of strings.
pub open spec fn contents(strs: Seq<&str>) -> Seq<Seq<char>> {
    Seq::new(strs.len(), |i: int| strs[i]@)
}

/// The lines of a text. A line ends at a line feed or at the end of the text; neither the line
/// feed nor a carriage return right before it belongs to the line. A line feed at the end of the
/// text opens no further line.
pub open spec fn text_lines(s: Seq<char>) -> Seq<Seq<char>>
    decreases s.len(),
    via text_lines_decreases
{
    if s.len() == 0 {
        Seq::empty()
    } else {
        let head = CharClass::LineText.head(s);
        let tail = CharClass::LineText.tail(s);
        if tail.len() == 0 {
            seq![head]
        } else {
            seq![without_cr(head)] + text_lines(tail.skip(1))
        }
    }
}

#[via_fn]
proof fn text_lines_decreases(s: Seq<char>) {
    crate::chars::lemma_run(CharClass::LineText, s);
}

/// Splits a text into its lines.
pub fn lines<'a>(source: &'a str) -> (r: Vec<&'a str>)
    ensures
        contents(r@) == text_lines(source@),
{
    let mut found: Vec<&'a str> = Vec::new();
    let mut left: &'a str = source;
    proof {
        assert(contents(found@) + text_lines(left@) =~= text_lines(source@));
    }
    while !left.is_empty()
        invariant
            contents(found@) + text_lines(left@) == text_lines(source@),
        decreases left@.len(),
    {
        let ghost before = found@;
        let ghost text = left@;
        proof {
            crate::chars::lemma_run(CharClass::LineText, text);
        }
        let (head, tail) = span(left, CharClass::LineText);
        match split_first(tail) {
            None => {
                found.push(head);
                left = tail;
                proof {
                    assert(contents(found@) =~= contents(before) + seq![head@]);
                    assert(text_lines(left@) =~= Seq::empty());
                    assert(contents(found@) + text_lines(left@) =~= contents(before) + text_lines(
                        text,
                    ));
                }
            },
            Some((_, rest)) => {
                let line = strip_cr(head);
                found.push(line);
                left = rest;
                proof {
                    assert(contents(found@) =~= contents(before) + seq![line@]);
                    assert(contents(found@) + text_lines(left@) =~= contents(before) + text_lines(
                        text,
                    ));
                }
            },
        }
    }
    assert(contents(found@) + text_lines(left@) =~= contents(found@));
    found
}

/// The elements of `parts`, each behind the separator.
pub open spec fn separated(parts: Seq<Seq<char>>, sep: Seq<char>) -> Seq<char>
    decreases parts.len(),
{
    if parts.len() == 0 {
        Seq::empty()
    } else {
        sep + parts[0] + separated(parts.drop_first(), sep)
    }
}

/// The elements of `parts`, with the separator between them.
pub open spec fn joined(parts: Seq<Seq<char>>, sep: Seq<char>) -> Seq<char> {
    if parts.len() == 0 {
        Seq::empty()
    } else {
        parts[0] + separated(parts.drop_first(), sep)
    }
}

/// The contents of a sequence of owned strings.
pub open spec fn owned_contents(strs: Seq<String>) -> Seq<Seq<char>> {
    Seq::new(strs.len(), |i: int| strs[i]@)
}

/// `String::push` appends the character to the end of the string.
pub assume_specification[ String::push ](s: &mut String, c: char)
    ensures
        final(s)@ == old(s)@.push(c),
;

/// Concatenates strings, with the separator between them.
pub fn join(parts: &Vec<String>, sep: &str) -> (r: String)
    ensures
        r@ == joined(owned_contents(parts@), sep@),
{
    let mut text = String::new();
    let ghost all = owned_contents(parts@);
    if parts.len() > 0 {
        text.append(parts[0].as_str());
        proof {
            assert(text@ =~= all[0]);
            assert(all.skip(1) =~= all.drop_first());
        }
        let mut i: usize = 1;
        while i < parts.len()
            invariant
                1 <= i <= parts@.len(),
                all == owned_contents(parts@),
                text@ + separated(all.skip(i as int), sep@) == joined(all, sep@),
            decreases parts@.len() - i,
        {
            let ghost before = text@;
            text.append(sep);
            text.append(parts[i].as_str());
            proof {
                let left = all.skip(i as int);
                assert(left.drop_first() =~= all.skip(i + 1));
                assert(text@ + separated(all.skip(i + 1), sep@) =~= before + separated(left, sep@));
            }
            i = i + 1;
        }
        proof {
            assert(all.skip(i as int).len() == 0);
            assert(text@ + separated(all.skip(i as int), sep@) =~= text@);
        }
    }
    text
}

} // verus!
