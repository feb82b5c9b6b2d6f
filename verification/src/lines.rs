//! The forms of lines: which lines are tags, which are functions, and which declare nothing.

use crate::arg::ArgModel;
use crate::chars::CharClass;
use crate::event::DataModel;
use crate::grammar::arg_tag;
use crate::grammar::declared_arg;
use crate::grammar::flag_arg;
use crate::grammar::fn_elision;
use crate::grammar::fn_keyword;
use crate::grammar::function;
use crate::grammar::line;
use crate::grammar::option_arg;
use crate::grammar::positional_arg;
use crate::grammar::skip_blanks;
use crate::grammar::tag_body;
use crate::grammar::text_tag;
use crate::meaning::a_tag_ends_at_a_blank;
use crate::meaning::is_end;
use crate::meaning::lemma_split;
use crate::meaning::stops;
use crate::notation::lemma_after;
use crate::notation::lemma_no_run;
use crate::notation::lemma_not_after;
use crate::notation::lemma_span;
use crate::notation::lemma_words;
use crate::script::leading_blanks_do_not_matter;
use crate::script::lemma_tag_body;
use crate::text::after;
use vstd::prelude::*;

verus! {

/// A tag line: `#`, blanks, `@`, and the body of the tag.
pub open spec fn tag_line(blanks: Seq<char>, body: Seq<char>) -> Seq<char> {
    seq!['#'] + (blanks + (seq!['@'] + body))
}

/// `s` is a tag line with that body.
pub open spec fn has_tag(s: Seq<char>, body: Seq<char>) -> bool {
    exists|blanks: Seq<char>|
        CharClass::Blank.covers(blanks) && s == #[trigger] tag_line(blanks, body)
}

/// A tag is a `#`, blanks and an `@` at the start of a line, and nothing else is.
pub proof fn tags_have_this_form(s: Seq<char>, body: Seq<char>)
    ensures
        tag_body(s) == Some(body) <==> has_tag(s, body),
{
    if tag_body(s) == Some(body) {
        let t = s.skip(1);
        let blanks = CharClass::Blank.head(t);
        lemma_split(CharClass::Blank, t);
        assert(skip_blanks(t) =~= seq!['@'] + body);
        assert(s =~= tag_line(blanks, body));
    }
    if has_tag(s, body) {
        let blanks = choose|blanks: Seq<char>|
            CharClass::Blank.covers(blanks) && s == #[trigger] tag_line(blanks, body);
        lemma_tag_body(blanks, body);
    }
}

/// A tag is found under its whole first word only.
proof fn lemma_first_word(word: Seq<char>, tail: Seq<char>, known: Seq<char>)
    requires
        CharClass::Name.covers(word),
        CharClass::Name.covers(known),
        stops(CharClass::Name, tail),
    ensures
        word == known ==> after(word + tail, known) == Some(tail),
        word != known ==> text_tag(word + tail, known) is None && arg_tag(word + tail, known)
            is None,
{
    let body = word + tail;
    if word == known {
        lemma_after(word, tail);
    } else if known.is_prefix_of(body) {
        let n = known.len() as int;
        assert forall|i: int| 0 <= i < n implies body[i] == #[trigger] known[i] by {
            assert(body.subrange(0, n)[i] == body[i]);
        }
        if n > word.len() {
            assert(known[word.len() as int] == tail[0]);
        } else if n == word.len() {
            assert(word =~= known);
        } else {
            let t = body.skip(n);
            assert(t[0] == word[n]);
            lemma_no_run(CharClass::Blank, t);
        }
    }
}

/// The words of tags are names.
proof fn lemma_known_words()
    ensures
        CharClass::Name.covers("describe"@),
        CharClass::Name.covers("version"@),
        CharClass::Name.covers("author"@),
        CharClass::Name.covers("cmd"@),
        CharClass::Name.covers("option"@),
        CharClass::Name.covers("arg"@),
        CharClass::Name.covers("flag"@),
        "describe"@.len() == 8 && "version"@.len() == 7 && "author"@.len() == 6 && "option"@.len()
            == 6 && "flag"@.len() == 4 && "cmd"@.len() == 3 && "arg"@.len() == 3,
        "author"@[0] == 'a' && "option"@[0] == 'o' && "cmd"@[0] == 'c' && "arg"@[0] == 'a',
{
    lemma_words();
}

/// The argument of a tag is declared by the first word `option`, `arg` or `flag`, a blank and an
/// argument of that kind; the text of a tag stands behind its whole first word.
pub proof fn arguments_are_declared_by_three_words(
    word: Seq<char>,
    tail: Seq<char>,
    known: Seq<char>,
    t: Seq<char>,
    a: ArgModel,
)
    requires
        CharClass::Name.covers(word),
        CharClass::Name.covers(known),
        stops(CharClass::Name, tail),
    ensures
        declared_arg(word + tail) == Some(a) <==> {
            &&& tail.len() > 0 && (tail[0] == ' ' || tail[0] == '\t')
            &&& {
                ||| word == "option"@ && option_arg(tail) == Some(a)
                ||| word == "arg"@ && positional_arg(tail) == Some(a)
                ||| word == "flag"@ && flag_arg(tail) == Some(a)
            }
        },
        text_tag(word + tail, known) == Some(t) <==> word == known && is_end(tail, t),
{
    lemma_known_words();
    lemma_first_word(word, tail, "option"@);
    lemma_first_word(word, tail, "arg"@);
    lemma_first_word(word, tail, "flag"@);
    lemma_first_word(word, tail, known);
    a_tag_ends_at_a_blank(tail, t);
    lemma_split(CharClass::Blank, tail);
    leading_blanks_do_not_matter(CharClass::Blank.head(tail), skip_blanks(tail));
    if tail.len() > 0 && !CharClass::Blank.has(tail[0]) {
        lemma_no_run(CharClass::Blank, tail);
    }
}

/// What a tag declares is decided by its first word. The words `describe`, `version`, `author`
/// and `cmd` need the end of the line or a blank behind them; `option`, `arg` and `flag` need a
/// blank and then an argument of that kind. Any other tag is unexpected, under its first word.
pub proof fn tags_are_told_by_their_first_word(
    blanks: Seq<char>,
    word: Seq<char>,
    tail: Seq<char>,
    t: Seq<char>,
    a: ArgModel,
)
    requires
        CharClass::Blank.covers(blanks),
        CharClass::Name.covers(word),
        stops(CharClass::Name, tail),
    ensures
        ({
            let found = line(tag_line(blanks, word + tail));
            let none = Seq::<char>::empty();
            let unexpected = (tail, Some(DataModel::Unexpect(word)));
            let blank = tail.len() > 0 && (tail[0] == ' ' || tail[0] == '\t');
            &&& word == "describe"@ && is_end(tail, t) ==> found == (
                none,
                Some(DataModel::Describe(t)),
            )
            &&& word == "version"@ && is_end(tail, t) ==> found == (
                none,
                Some(DataModel::Version(t)),
            )
            &&& word == "author"@ && is_end(tail, t) ==> found == (
                none,
                Some(DataModel::Author(t)),
            )
            &&& word == "cmd"@ && is_end(tail, t) ==> found == (none, Some(DataModel::Cmd(t)))
            &&& word == "option"@ && blank && option_arg(tail) == Some(a) ==> found == (
                none,
                Some(DataModel::Arg(a)),
            )
            &&& word == "arg"@ && blank && positional_arg(tail) == Some(a) ==> found == (
                none,
                Some(DataModel::Arg(a)),
            )
            &&& word == "flag"@ && blank && flag_arg(tail) == Some(a) ==> found == (
                none,
                Some(DataModel::Arg(a)),
            )
            &&& (word == "describe"@ || word == "version"@ || word == "author"@ || word == "cmd"@)
                && tail.len() > 0 && !blank ==> found == unexpected
            &&& word == "option"@ && (!blank || option_arg(tail) is None) ==> found == unexpected
            &&& word == "arg"@ && (!blank || positional_arg(tail) is None) ==> found == unexpected
            &&& word == "flag"@ && (!blank || flag_arg(tail) is None) ==> found == unexpected
            &&& word != "describe"@ && word != "version"@ && word != "author"@ && word != "cmd"@
                && word != "option"@ && word != "arg"@ && word != "flag"@ ==> found == unexpected
        }),
{
    let body = word + tail;
    lemma_tag_body(blanks, body);
    lemma_known_words();
    lemma_first_word(word, tail, "describe"@);
    lemma_first_word(word, tail, "version"@);
    lemma_first_word(word, tail, "author"@);
    lemma_first_word(word, tail, "cmd"@);
    lemma_first_word(word, tail, "option"@);
    lemma_first_word(word, tail, "arg"@);
    lemma_first_word(word, tail, "flag"@);
    lemma_span(CharClass::Name, word, tail);
    a_tag_ends_at_a_blank(tail, t);
    let skipped = CharClass::Blank.head(tail);
    let left = skip_blanks(tail);
    lemma_split(CharClass::Blank, tail);
    leading_blanks_do_not_matter(skipped, left);
    if tail.len() > 0 && !CharClass::Blank.has(tail[0]) {
        lemma_no_run(CharClass::Blank, tail);
    }
}

/// A function with the keyword: blanks, `function`, one blank or more, the name.
pub open spec fn keyword_line(
    before: Seq<char>,
    between: Seq<char>,
    name: Seq<char>,
    rest: Seq<char>,
) -> Seq<char> {
    before + ("function"@ + (between + (name + rest)))
}

/// `s` is a function with the keyword; the blanks and the name go as far as they can.
pub open spec fn has_keyword(s: Seq<char>, name: Seq<char>, rest: Seq<char>) -> bool {
    &&& CharClass::Name.covers(name)
    &&& stops(CharClass::Name, rest)
    &&& name.len() == 0 ==> stops(CharClass::Blank, rest)
    &&& exists|before: Seq<char>, between: Seq<char>|
        CharClass::Blank.covers(before) && CharClass::Blank.covers(between) && between.len() > 0
            && s == #[trigger] keyword_line(before, between, name, rest)
}

/// A function without the keyword: the name and a pair of parentheses, with blanks around them.
pub open spec fn parentheses_line(
    before: Seq<char>,
    name: Seq<char>,
    behind: Seq<char>,
    inside: Seq<char>,
    rest: Seq<char>,
) -> Seq<char> {
    before + (name + (behind + (seq!['('] + (inside + (seq![')'] + rest)))))
}

/// `s` is a name and a pair of parentheses.
pub open spec fn has_parentheses(s: Seq<char>, name: Seq<char>, rest: Seq<char>) -> bool {
    &&& CharClass::Name.covers(name)
    &&& exists|before: Seq<char>, behind: Seq<char>, inside: Seq<char>|
        CharClass::Blank.covers(before) && CharClass::Blank.covers(behind)
            && CharClass::Blank.covers(inside) && s == #[trigger] parentheses_line(
            before,
            name,
            behind,
            inside,
            rest,
        )
}

/// The keyword and a name are read exactly where they stand.
#[verifier::spinoff_prover]
#[verifier::rlimit(30)]
proof fn lemma_keyword_form(s: Seq<char>, name: Seq<char>, rest: Seq<char>)
    ensures
        fn_keyword(s) == Some((rest, name)) <==> has_keyword(s, name, rest),
{
    let class = CharClass::Blank;
    if fn_keyword(s) == Some((rest, name)) {
        let start = skip_blanks(s);
        let t = after(start, "function"@)->0;
        let left = skip_blanks(t);
        let before = class.head(s);
        let between = class.head(t);
        lemma_split(class, s);
        lemma_split(class, t);
        lemma_split(CharClass::Name, left);
        assert(start =~= "function"@ + t);
        assert(s =~= keyword_line(before, between, name, rest));
        if name.len() == 0 {
            assert(left =~= rest);
        }
    }
    if has_keyword(s, name, rest) {
        let (before, between) = choose|before: Seq<char>, between: Seq<char>|
            class.covers(before) && class.covers(between) && between.len() > 0 && s
                == #[trigger] keyword_line(before, between, name, rest);
        let last = name + rest;
        let start = "function"@ + (between + last);
        reveal_strlit("function");
        assert(start[0] == 'f');
        lemma_span(class, before, start);
        lemma_after("function"@, between + last);
        assert(stops(class, last)) by {
            if name.len() > 0 {
                assert(last[0] == name[0]);
            } else {
                assert(last =~= rest);
            }
        }
        lemma_span(class, between, last);
        lemma_span(CharClass::Name, name, rest);
    }
}

/// A name and parentheses are read where they stand.
#[verifier::spinoff_prover]
#[verifier::rlimit(30)]
proof fn lemma_parentheses_read(
    before: Seq<char>,
    name: Seq<char>,
    behind: Seq<char>,
    inside: Seq<char>,
    rest: Seq<char>,
)
    requires
        CharClass::Blank.covers(before),
        CharClass::Name.covers(name),
        CharClass::Blank.covers(behind),
        CharClass::Blank.covers(inside),
    ensures
        fn_elision(parentheses_line(before, name, behind, inside, rest)) == Some((rest, name)),
{
    let class = CharClass::Blank;
    let close = seq![')'] + rest;
    let open = seq!['('] + (inside + close);
    let s = parentheses_line(before, name, behind, inside, rest);
    lemma_span(class, inside, close);
    assert(open.skip(1) =~= inside + close);
    assert(close.skip(1) =~= rest);
    if name.len() == 0 {
        let blanks = before + behind;
        assert(class.covers(blanks));
        assert(s =~= blanks + open);
        lemma_span(class, blanks, open);
        lemma_no_run(CharClass::Name, open);
        assert(CharClass::Name.head(open) =~= name);
        lemma_no_run(class, open);
    } else {
        let start = name + (behind + open);
        assert(start[0] == name[0]);
        lemma_span(class, before, start);
        assert(stops(CharClass::Name, behind + open)) by {
            if behind.len() > 0 {
                assert((behind + open)[0] == behind[0]);
            } else {
                assert((behind + open)[0] == '(');
            }
        }
        lemma_span(CharClass::Name, name, behind + open);
        lemma_span(class, behind, open);
    }
}

/// A name and parentheses, put together from the last piece to the first.
#[verifier::spinoff_prover]
#[verifier::rlimit(30)]
proof fn lemma_parentheses_pieces(
    s: Seq<char>,
    before: Seq<char>,
    name: Seq<char>,
    behind: Seq<char>,
    open: Seq<char>,
    inside: Seq<char>,
    close: Seq<char>,
)
    requires
        CharClass::Blank.covers(before),
        CharClass::Name.covers(name),
        CharClass::Blank.covers(behind),
        CharClass::Blank.covers(inside),
        s == before + (name + (behind + open)),
        open.len() > 0 && open[0] == '(' && open.skip(1) == inside + close,
        close.len() > 0 && close[0] == ')',
    ensures
        has_parentheses(s, name, close.skip(1)),
{
    let rest = close.skip(1);
    assert(close =~= seq![')'] + rest);
    assert(open =~= seq!['('] + open.skip(1));
    assert(s == parentheses_line(before, name, behind, inside, rest));
}

/// A text that was read as a name and parentheses has that form.
#[verifier::spinoff_prover]
#[verifier::rlimit(30)]
proof fn lemma_parentheses_found(s: Seq<char>)
    requires
        fn_elision(s) is Some,
    ensures
        has_parentheses(s, (fn_elision(s)->0).1, (fn_elision(s)->0).0),
{
    let class = CharClass::Blank;
    let start = skip_blanks(s);
    let t = CharClass::Name.tail(start);
    let open = skip_blanks(t);
    let close = skip_blanks(open.skip(1));
    let name = CharClass::Name.head(start);
    lemma_split(class, s);
    lemma_split(CharClass::Name, start);
    lemma_split(class, t);
    lemma_split(class, open.skip(1));
    lemma_parentheses_pieces(
        s,
        class.head(s),
        name,
        class.head(t),
        open,
        class.head(open.skip(1)),
        close,
    );
}

/// A name and parentheses are read exactly where they stand.
proof fn lemma_parentheses_form(s: Seq<char>, name: Seq<char>, rest: Seq<char>)
    ensures
        fn_elision(s) == Some((rest, name)) <==> has_parentheses(s, name, rest),
{
    let class = CharClass::Blank;
    if fn_elision(s) == Some((rest, name)) {
        lemma_parentheses_found(s);
    }
    if has_parentheses(s, name, rest) {
        let (before, behind, inside) = choose|
            before: Seq<char>,
            behind: Seq<char>,
            inside: Seq<char>,
        |
            class.covers(before) && class.covers(behind) && class.covers(inside) && s
                == #[trigger] parentheses_line(before, name, behind, inside, rest);
        lemma_parentheses_read(before, name, behind, inside, rest);
    }
}

/// A function is a name behind the keyword, or else a name before a pair of parentheses; nothing
/// else is one.
pub proof fn functions_have_this_form(s: Seq<char>, name: Seq<char>, rest: Seq<char>)
    ensures
        function(s) == Some((rest, name)) <==> has_keyword(s, name, rest) || (has_parentheses(
            s,
            name,
            rest,
        ) && forall|n: Seq<char>, r: Seq<char>| !has_keyword(s, n, r)),
{
    lemma_keyword_form(s, name, rest);
    lemma_parentheses_form(s, name, rest);
    match fn_keyword(s) {
        Some((r, n)) => {
            lemma_keyword_form(s, n, r);
        },
        None => {
            assert forall|n: Seq<char>, r: Seq<char>| !has_keyword(s, n, r) by {
                lemma_keyword_form(s, n, r);
            }
        },
    }
}

/// A line declares a function exactly if it is no tag and has the form of a function, and leaves
/// what stands behind that form.
pub proof fn function_lines_have_this_form(s: Seq<char>, name: Seq<char>, rest: Seq<char>)
    ensures
        line(s) == (rest, Some(DataModel::Func(name))) <==> {
            &&& forall|body: Seq<char>| !has_tag(s, body)
            &&& has_keyword(s, name, rest) || (has_parentheses(s, name, rest) && forall|
                n: Seq<char>,
                r: Seq<char>,
            |
                !has_keyword(s, n, r))
        },
{
    functions_have_this_form(s, name, rest);
    match tag_body(s) {
        Some(body) => {
            tags_have_this_form(s, body);
        },
        None => {
            assert forall|body: Seq<char>| !has_tag(s, body) by {
                tags_have_this_form(s, body);
            }
        },
    }
}

/// A line declares nothing exactly if it is neither a tag nor a function, and then all of it is
/// left.
pub proof fn other_lines_declare_nothing(s: Seq<char>)
    ensures
        line(s).1 is None <==> {
            &&& forall|body: Seq<char>| !has_tag(s, body)
            &&& forall|name: Seq<char>, rest: Seq<char>| !has_keyword(s, name, rest)
            &&& forall|name: Seq<char>, rest: Seq<char>| !has_parentheses(s, name, rest)
        },
        line(s).1 is None ==> line(s).0 == s,
{
    match tag_body(s) {
        Some(body) => {
            tags_have_this_form(s, body);
        },
        None => {
            assert forall|body: Seq<char>| !has_tag(s, body) by {
                tags_have_this_form(s, body);
            }
        },
    }
    match fn_keyword(s) {
        Some((r, n)) => {
            lemma_keyword_form(s, n, r);
        },
        None => {
            assert forall|n: Seq<char>, r: Seq<char>| !has_keyword(s, n, r) by {
                lemma_keyword_form(s, n, r);
            }
        },
    }
    match fn_elision(s) {
        Some((r, n)) => {
            lemma_parentheses_form(s, n, r);
        },
        None => {
            assert forall|n: Seq<char>, r: Seq<char>| !has_parentheses(s, n, r) by {
                lemma_parentheses_form(s, n, r);
            }
        },
    }
}

/// A comment in which something else than an `@` follows the `#` and the blanks declares nothing.
pub proof fn plain_comments_declare_nothing(blanks: Seq<char>, text: Seq<char>)
    requires
        CharClass::Blank.covers(blanks),
        stops(CharClass::Blank, text),
        text.len() > 0 ==> text[0] != '@',
    ensures
        line(seq!['#'] + (blanks + text)) == (seq!['#'] + (blanks + text), None::<DataModel>),
{
    let s = seq!['#'] + (blanks + text);
    assert(s.skip(1) =~= blanks + text);
    lemma_span(CharClass::Blank, blanks, text);
    lemma_no_run(CharClass::Blank, s);
    lemma_no_run(CharClass::Name, s);
    reveal_strlit("function");
    lemma_not_after(s, "function"@, 0);
}

} // verus!
