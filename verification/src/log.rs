//! How a line of the log is shown.

use vstd::prelude::*;

use crate::text::{chars_of, same_text, text_of};

verus! {

/// Whether a character is white space: whether it has the Unicode property
/// `White_Space`.
pub open spec fn white_space(c: char) -> bool {
    ||| '\u{9}' <= c <= '\u{d}'
    ||| c == '\u{20}'
    ||| c == '\u{85}'
    ||| c == '\u{a0}'
    ||| c == '\u{1680}'
    ||| '\u{2000}' <= c <= '\u{200a}'
    ||| c == '\u{2028}'
    ||| c == '\u{2029}'
    ||| c == '\u{202f}'
    ||| c == '\u{205f}'
    ||| c == '\u{3000}'
}

/// `char::is_whitespace`: whether a character has the Unicode property `White_Space`.
#[verifier::external_body]
fn is_white(c: char) -> (r: bool)
    ensures
        r == white_space(c),
{
    c.is_whitespace()
}

/// What stands before the first white space.
pub open spec fn leading_word(s: Seq<char>) -> Seq<char>
    decreases s.len(),
{
    if s.len() == 0 || white_space(s[0]) {
        Seq::empty()
    } else {
        seq![s[0]] + leading_word(s.skip(1))
    }
}

/// The first word of a text.
pub open spec fn first_word(s: Seq<char>) -> Seq<char>
    decreases s.len(),
{
    if s.len() > 0 && white_space(s[0]) {
        first_word(s.skip(1))
    } else {
        leading_word(s)
    }
}

/// The class of a line, by the level that is its first word.
pub open spec fn class_name(line: Seq<char>) -> Seq<char> {
    let level = first_word(line);
    if level == "ERROR"@ {
        "log-line log-error"@
    } else if level == "WARN"@ {
        "log-line log-warn"@
    } else if level == "INFO"@ {
        "log-line log-info"@
    } else if level == "DEBUG"@ {
        "log-line log-debug"@
    } else if level == "TRACE"@ {
        "log-line log-trace"@
    } else {
        "log-line"@
    }
}

/// The first word of a text.
pub fn level_of(line: &str) -> (r: String)
    ensures
        r@ == first_word(line@),
{
    let v = chars_of(line);
    let mut from: usize = 0;
    assert(v@.skip(0) =~= v@);
    while from < v.len() && is_white(v[from])
        invariant
            0 <= from <= v@.len(),
            v@ == line@,
            first_word(line@) == first_word(v@.skip(from as int)),
        decreases v@.len() - from,
    {
        assert(v@.skip(from as int).skip(1) =~= v@.skip(from + 1));
        from += 1;
    }
    let ghost rest = v@.skip(from as int);
    let mut to: usize = from;
    assert(v@.subrange(from as int, from as int) + leading_word(v@.skip(to as int))
        =~= leading_word(rest));
    while to < v.len() && !is_white(v[to])
        invariant
            from <= to <= v@.len(),
            rest == v@.skip(from as int),
            leading_word(rest) == v@.subrange(from as int, to as int) + leading_word(
                v@.skip(to as int),
            ),
        decreases v@.len() - to,
    {
        let ghost tail = v@.skip(to as int);
        assert(tail.skip(1) =~= v@.skip(to + 1));
        assert(v@.subrange(from as int, to as int) + (seq![tail[0]] + leading_word(tail.skip(1)))
            =~= v@.subrange(from as int, to + 1) + leading_word(v@.skip(to + 1)));
        to += 1;
    }
    assert(leading_word(v@.skip(to as int)) =~= Seq::<char>::empty());
    assert(v@.subrange(from as int, to as int) + Seq::<char>::empty() =~= v@.subrange(
        from as int,
        to as int,
    ));
    text_of(&v, from, to)
}

/// The class of a line, by the level that is its first word.
pub fn log_class(line: &str) -> (r: &'static str)
    ensures
        r@ == class_name(line@),
{
    let level = level_of(line);
    let level = level.as_str();
    if same_text(level, "ERROR") {
        "log-line log-error"
    } else if same_text(level, "WARN") {
        "log-line log-warn"
    } else if same_text(level, "INFO") {
        "log-line log-info"
    } else if same_text(level, "DEBUG") {
        "log-line log-debug"
    } else if same_text(level, "TRACE") {
        "log-line log-trace"
    } else {
        "log-line"
    }
}

proof fn lemma_first_word(space: Seq<char>, word: Seq<char>, rest: Seq<char>)
    requires
        forall|i: int| 0 <= i < space.len() ==> white_space(#[trigger] space[i]),
        forall|i: int| 0 <= i < word.len() ==> !white_space(#[trigger] word[i]),
        rest.len() == 0 || white_space(rest[0]),
        word.len() > 0 || rest.len() == 0,
    ensures
        first_word(space + word + rest) == word,
    decreases space.len() + word.len(),
{
    let line = space + word + rest;
    if space.len() > 0 {
        assert(line[0] == space[0]);
        let tail = space.skip(1);
        assert forall|i: int| 0 <= i < tail.len() implies white_space(#[trigger] tail[i]) by {
            assert(white_space(space[i + 1]));
        }
        assert(line.skip(1) =~= tail + word + rest);
        lemma_first_word(tail, word, rest);
    } else {
        assert(line =~= word + rest);
        lemma_leading_word(word, rest);
        if word.len() > 0 {
            assert(line[0] == word[0]);
        }
    }
}

proof fn lemma_leading_word(word: Seq<char>, rest: Seq<char>)
    requires
        forall|i: int| 0 <= i < word.len() ==> !white_space(#[trigger] word[i]),
        rest.len() == 0 || white_space(rest[0]),
    ensures
        leading_word(word + rest) == word,
    decreases word.len(),
{
    let line = word + rest;
    if word.len() == 0 {
        assert(line =~= rest);
        assert(leading_word(line) =~= word);
    } else {
        let tail = word.skip(1);
        assert forall|i: int| 0 <= i < tail.len() implies !white_space(#[trigger] tail[i]) by {
            assert(!white_space(word[i + 1]));
        }
        assert(line.skip(1) =~= tail + rest);
        lemma_leading_word(tail, rest);
        assert(seq![word[0]] + tail =~= word);
    }
}

/// A line is shown by its level, the first of its words: what stands between the white space
/// that it begins with and the next.
pub proof fn lines_are_shown_by_their_first_word(
    line: &str,
    r: &'static str,
    space: Seq<char>,
    word: Seq<char>,
    rest: Seq<char>,
)
    requires
        call_ensures(log_class, (line,), r),
        line@ == space + word + rest,
        forall|i: int| 0 <= i < space.len() ==> white_space(#[trigger] space[i]),
        forall|i: int| 0 <= i < word.len() ==> !white_space(#[trigger] word[i]),
        rest.len() == 0 || white_space(rest[0]),
        word.len() > 0 || rest.len() == 0,
    ensures
        word == "ERROR"@ ==> r@ == "log-line log-error"@,
        word == "WARN"@ ==> r@ == "log-line log-warn"@,
        word == "INFO"@ ==> r@ == "log-line log-info"@,
        word == "DEBUG"@ ==> r@ == "log-line log-debug"@,
        word == "TRACE"@ ==> r@ == "log-line log-trace"@,
        word != "ERROR"@ && word != "WARN"@ && word != "INFO"@ && word != "DEBUG"@ && word
            != "TRACE"@ ==> r@ == "log-line"@,
{
    lemma_first_word(space, word, rest);
    reveal_strlit("ERROR");
    reveal_strlit("WARN");
    reveal_strlit("INFO");
    reveal_strlit("DEBUG");
    reveal_strlit("TRACE");
    assert("ERROR"@[0] == 'E' && "WARN"@[0] == 'W' && "INFO"@[0] == 'I' && "DEBUG"@[0] == 'D'
        && "TRACE"@[0] == 'T');
}

/// The first word of a line stands between the white space that the line begins with and
/// the next.
pub proof fn first_words_stand_between_white_space(
    line: &str,
    r: String,
    space: Seq<char>,
    word: Seq<char>,
    rest: Seq<char>,
)
    requires
        call_ensures(level_of, (line,), r),
        line@ == space + word + rest,
        forall|i: int| 0 <= i < space.len() ==> white_space(#[trigger] space[i]),
        forall|i: int| 0 <= i < word.len() ==> !white_space(#[trigger] word[i]),
        rest.len() == 0 || white_space(rest[0]),
        word.len() > 0 || rest.len() == 0,
    ensures
        r@ == word,
{
    lemma_first_word(space, word, rest);
}

} // verus!
