//! Comparing and building texts.

use vstd::prelude::*;
use vstd::utf8::{encode_utf8, encode_utf8_decode_utf8};

verus! {

/// `str::eq`, by way of the UTF-8 bytes: whether two texts are the same.
pub fn same_text(a: &str, b: &str) -> (r: bool)
    ensures
        r == (a@ == b@),
{
    let x = a.as_bytes();
    let y = b.as_bytes();
    proof {
        encode_utf8_decode_utf8(a@);
        encode_utf8_decode_utf8(b@);
    }
    if x.len() != y.len() {
        return false;
    }
    let mut i: usize = 0;
    while i < x.len()
        invariant
            0 <= i <= x@.len(),
            x@.len() == y@.len(),
            x@ == encode_utf8(a@),
            y@ == encode_utf8(b@),
            forall|j: int| 0 <= j < i ==> x@[j] == y@[j],
        decreases x@.len() - i,
    {
        if x[i] != y[i] {
            return false;
        }
        i += 1;
    }
    assert(x@ =~= y@);
    true
}

/// Whether `name` is one of `names`.
pub fn contains_text(names: &Vec<String>, name: &str) -> (r: bool)
    ensures
        r == crate::types::texts(names@).contains(name@),
{
    let ghost all = crate::types::texts(names@);
    let mut i: usize = 0;
    while i < names.len()
        invariant
            0 <= i <= names@.len(),
            all == crate::types::texts(names@),
            forall|j: int| 0 <= j < i ==> #[trigger] all[j] != name@,
        decreases names@.len() - i,
    {
        if same_text(names[i].as_str(), name) {
            assert(all[i as int] == name@);
            return true;
        }
        i += 1;
    }
    false
}

/// The characters of a text.
pub fn chars_of(s: &str) -> (v: Vec<char>)
    ensures
        v@ == s@,
{
    let mut v: Vec<char> = Vec::new();
    for c in it: s.chars()
        invariant
            v@.len() == it.index(),
            it.seq() == s@,
            forall|j: int| 0 <= j < v@.len() ==> v@[j] == it.seq()[j],
    {
        v.push(c);
    }
    v
}

/// `String::push`: appends one character.
pub assume_specification[ std::string::String::push ](s: &mut std::string::String, c: char)
    ensures
        final(s)@ == old(s)@.push(c),
;

/// The text made of the characters from `from` up to `to`.
pub fn text_of(v: &Vec<char>, from: usize, to: usize) -> (s: String)
    requires
        from <= to <= v@.len(),
    ensures
        s@ == v@.subrange(from as int, to as int),
{
    let mut s = String::new();
    let mut i: usize = from;
    while i < to
        invariant
            from <= i <= to <= v@.len(),
            s@ == v@.subrange(from as int, i as int),
        decreases to - i,
    {
        s.push(v[i]);
        assert(v@.subrange(from as int, i + 1) =~= v@.subrange(from as int, i as int).push(
            v@[i as int],
        ));
        i += 1;
    }
    s
}

/// Whether `s` begins with `prefix`.
pub open spec fn begins(s: Seq<char>, prefix: Seq<char>) -> bool {
    prefix.len() <= s.len() && s.take(prefix.len() as int) == prefix
}

/// `str::starts_with` on a text.
pub fn starts_with(s: &str, prefix: &str) -> (r: bool)
    ensures
        r == begins(s@, prefix@),
{
    let x = chars_of(s);
    let y = chars_of(prefix);
    if y.len() > x.len() {
        return false;
    }
    let mut i: usize = 0;
    while i < y.len()
        invariant
            0 <= i <= y@.len() <= x@.len(),
            x@ == s@,
            y@ == prefix@,
            forall|j: int| 0 <= j < i ==> x@[j] == y@[j],
        decreases y@.len() - i,
    {
        if x[i] != y[i] {
            assert(s@.take(prefix@.len() as int)[i as int] != prefix@[i as int]);
            return false;
        }
        i += 1;
    }
    assert(s@.take(prefix@.len() as int) =~= prefix@);
    true
}

/// The place of the first `c`.
pub fn find_char(v: &Vec<char>, c: char) -> (r: Option<usize>)
    ensures
        match r {
            Some(i) => i < v@.len() && v@.index_of_first(c) == Some(i as int),
            None => v@.index_of_first(c) is None,
        },
{
    proof {
        v@.index_of_first_ensures(c);
    }
    let mut i: usize = 0;
    while i < v.len()
        invariant
            0 <= i <= v@.len(),
            forall|j: int| 0 <= j < i ==> v@[j] != c,
            match v@.index_of_first(c) {
                Some(k) => 0 <= k < v@.len() && v@[k] == c && forall|j: int|
                    0 <= j < k < v@.len() ==> v@[j] != c,
                None => !v@.contains(c),
            },
        decreases v@.len() - i,
    {
        if v[i] == c {
            assert(v@.contains(v@[i as int]));
            return Some(i);
        }
        i += 1;
    }
    None
}

/// What stands before the first `c`, or all of it where there is none.
pub open spec fn before_first(s: Seq<char>, c: char) -> Seq<char> {
    match s.index_of_first(c) {
        Some(i) => s.take(i),
        None => s,
    }
}

/// What stands behind the first `c`, or all of it where there is none.
pub open spec fn after_first(s: Seq<char>, c: char) -> Seq<char> {
    match s.index_of_first(c) {
        Some(i) => s.skip(i + 1),
        None => s,
    }
}

/// What stands before the first `c`, or all of it where there is none.
pub fn cut_before(s: &str, c: char) -> (r: String)
    ensures
        r@ == before_first(s@, c),
{
    let v = chars_of(s);
    match find_char(&v, c) {
        Some(i) => {
            assert(v@.subrange(0, i as int) =~= s@.take(i as int));
            text_of(&v, 0, i)
        },
        None => {
            assert(v@.subrange(0, v@.len() as int) =~= s@);
            text_of(&v, 0, v.len())
        },
    }
}

/// What stands behind the first `c`, or all of it where there is none.
pub fn cut_after(s: &str, c: char) -> (r: String)
    ensures
        r@ == after_first(s@, c),
{
    let v = chars_of(s);
    match find_char(&v, c) {
        Some(i) => {
            assert(v@.subrange(i + 1, v@.len() as int) =~= s@.skip(i + 1));
            let end: usize = v.len();
            text_of(&v, i + 1, end)
        },
        None => {
            assert(v@.subrange(0, v@.len() as int) =~= s@);
            text_of(&v, 0, v.len())
        },
    }
}

/// What stands behind the first `mark`, where there is one.
pub open spec fn behind_mark(s: Seq<char>, mark: Seq<char>) -> Option<Seq<char>>
    decreases s.len(),
{
    if begins(s, mark) {
        Some(s.skip(mark.len() as int))
    } else if s.len() == 0 {
        None
    } else {
        behind_mark(s.skip(1), mark)
    }
}

/// What stands behind the first `mark`, where there is one.
pub fn cut_behind(s: &str, mark: &str) -> (r: Option<String>)
    ensures
        match r {
            Some(t) => behind_mark(s@, mark@) == Some(t@),
            None => behind_mark(s@, mark@) is None,
        },
{
    let v = chars_of(s);
    let m = chars_of(mark);
    let end: usize = v.len();
    let mut i: usize = 0;
    assert(s@.skip(0) =~= s@);
    loop
        invariant
            0 <= i <= end == v@.len(),
            v@ == s@,
            m@ == mark@,
            behind_mark(s@, mark@) == behind_mark(s@.skip(i as int), mark@),
        decreases end - i,
    {
        let ghost t = s@.skip(i as int);
        if m.len() <= end - i {
            let mut j: usize = 0;
            while j < m.len() && v[i + j] == m[j]
                invariant
                    0 <= j <= m@.len() <= end - i,
                    i <= end == v@.len(),
                    v@ == s@,
                    forall|k: int| 0 <= k < j ==> v@[i + k] == m@[k],
                decreases m@.len() - j,
            {
                j += 1;
            }
            if j == m.len() {
                assert(t.take(m@.len() as int) =~= mark@);
                assert(v@.subrange(i + j, v@.len() as int) =~= t.skip(m@.len() as int));
                return Some(text_of(&v, i + j, end));
            }
            assert(t.take(m@.len() as int)[j as int] != mark@[j as int]);
        }
        assert(!begins(t, mark@));
        if i == end {
            return None;
        }
        assert(t.skip(1) =~= s@.skip(i + 1));
        i += 1;
    }
}

/// The last digit of a number.
pub open spec fn digit(n: nat) -> char {
    ((n % 10) + 48) as char
}

/// A number in decimal.
pub open spec fn decimal(n: nat) -> Seq<char>
    decreases n,
{
    if n < 10 {
        seq![digit(n)]
    } else {
        decimal(n / 10).push(digit(n))
    }
}

fn digit_of(n: usize) -> (c: char)
    ensures
        c == digit(n as nat),
{
    let d: u8 = (n % 10) as u8 + 48;
    d as char
}

/// A number in decimal.
pub fn decimal_of(n: usize) -> (s: String)
    ensures
        s@ == decimal(n as nat),
    decreases n,
{
    let mut s: String = if n < 10 {
        String::new()
    } else {
        decimal_of(n / 10)
    };
    s.push(digit_of(n));
    assert(s@ =~= decimal(n as nat));
    s
}

/// Texts with a separator between each two.
pub open spec fn joined(parts: Seq<Seq<char>>, separator: Seq<char>, n: nat) -> Seq<char>
    decreases n,
{
    if n == 0 {
        Seq::empty()
    } else if n == 1 {
        parts[0]
    } else {
        joined(parts, separator, (n - 1) as nat) + separator + parts[n - 1]
    }
}

/// `slice::join` on texts.
pub fn join(parts: &Vec<String>, separator: &str) -> (s: String)
    ensures
        s@ == joined(crate::types::texts(parts@), separator@, parts@.len()),
{
    let ghost all = crate::types::texts(parts@);
    let mut s = String::new();
    let mut i: usize = 0;
    while i < parts.len()
        invariant
            0 <= i <= parts@.len(),
            all == crate::types::texts(parts@),
            s@ == joined(all, separator@, i as nat),
        decreases parts@.len() - i,
    {
        if i > 0 {
            s.append(separator);
        }
        s.append(parts[i].as_str());
        assert(s@ =~= joined(all, separator@, (i + 1) as nat));
        i += 1;
    }
    s
}

/// A text is cut at the first of a character: what is before it and what is behind it come
/// out, and a text without the character comes out whole.
pub proof fn cuts_are_at_the_first(before: Seq<char>, c: char, behind: Seq<char>)
    requires
        !before.contains(c),
    ensures
        before_first(before.push(c) + behind, c) == before,
        after_first(before.push(c) + behind, c) == behind,
        before_first(before, c) == before,
        after_first(before, c) == before,
{
    let whole = before.push(c) + behind;
    assert(whole[before.len() as int] == c);
    whole.index_of_first_ensures(c);
    before.index_of_first_ensures(c);
    let i = whole.index_of_first(c)->0;
    if i < before.len() {
        assert(before[i] == c);
    }
    assert(whole[before.len() as int] == c);
    assert(i == before.len());
    assert(whole.take(i) =~= before);
    assert(whole.skip(i + 1) =~= behind);
}

/// A text begins with another where that and something more is the whole of it.
pub proof fn beginnings_are_prefixes(s: Seq<char>, prefix: Seq<char>)
    ensures
        begins(s, prefix) <==> exists|rest: Seq<char>| s == #[trigger] (prefix + rest),
{
    if begins(s, prefix) {
        assert(s =~= prefix + s.skip(prefix.len() as int));
    }
    assert forall|rest: Seq<char>| s == #[trigger] (prefix + rest) implies begins(s, prefix) by {
        assert(s.take(prefix.len() as int) =~= prefix);
    }
}

/// What stands behind a mark is what follows the first place at which the mark stands, and
/// there is nothing behind a mark that stands nowhere.
pub proof fn marks_are_found_first(s: Seq<char>, mark: Seq<char>, i: int)
    requires
        0 <= i <= s.len(),
        forall|j: int|
            0 <= j < i && j + mark.len() <= s.len() ==> #[trigger] s.subrange(j, j + mark.len())
                != mark,
    ensures
        i + mark.len() <= s.len() && s.subrange(i, i + mark.len()) == mark ==> behind_mark(s, mark)
            == Some(s.skip(i + mark.len())),
        i == s.len() && mark.len() > 0 ==> behind_mark(s, mark) is None,
    decreases i,
{
    assert(s.take(mark.len() as int) =~= s.subrange(0, 0int + mark.len()));
    if i > 0 {
        let rest = s.skip(1);
        assert forall|j: int| 0 <= j < i - 1 && j + mark.len() <= rest.len() implies
            #[trigger] rest.subrange(j, j + mark.len()) != mark by {
            assert(rest.subrange(j, j + mark.len()) =~= s.subrange(j + 1, j + 1 + mark.len()));
        }
        if mark.len() <= s.len() {
            assert(s.subrange(0, 0int + mark.len()) != mark);
        }
        marks_are_found_first(rest, mark, i - 1);
        if i + mark.len() <= s.len() {
            assert(rest.subrange(i - 1, i - 1 + mark.len()) =~= s.subrange(i, i + mark.len()));
            assert(rest.skip(i - 1 + mark.len()) =~= s.skip(i + mark.len()));
        }
    }
}

/// A number in decimal is that of its tens, followed by the digit of what is left.
pub proof fn decimals_end_in_their_units(tens: nat, units: nat)
    requires
        units < 10,
    ensures
        decimal(10 * tens + units) == if tens == 0 {
            Seq::empty()
        } else {
            decimal(tens)
        }.push(seq!['0', '1', '2', '3', '4', '5', '6', '7', '8', '9'][units as int]),
{
    let n = 10 * tens + units;
    assert(n % 10 == units && n / 10 == tens);
    assert(decimal(n) =~= if tens == 0 {
        Seq::empty()
    } else {
        decimal(tens)
    }.push(digit(n)));
}

/// Texts that are joined stand in their order, with the separator between each two and
/// nowhere else.
pub proof fn joined_texts_stand_in_order(
    parts: Seq<Seq<char>>,
    last: Seq<char>,
    separator: Seq<char>,
)
    ensures
        joined(Seq::empty(), separator, 0) == Seq::<char>::empty(),
        parts.len() == 0 ==> joined(parts.push(last), separator, parts.len() + 1) == last,
        parts.len() > 0 ==> joined(parts.push(last), separator, parts.len() + 1) == joined(
            parts,
            separator,
            parts.len(),
        ) + separator + last,
{
    lemma_joined_part(parts, parts.push(last), separator, parts.len());
}

proof fn lemma_joined_part(
    a: Seq<Seq<char>>,
    b: Seq<Seq<char>>,
    separator: Seq<char>,
    n: nat,
)
    requires
        n <= a.len(),
        n <= b.len(),
        forall|i: int| 0 <= i < n ==> a[i] == b[i],
    ensures
        joined(a, separator, n) == joined(b, separator, n),
    decreases n,
{
    if n > 1 {
        lemma_joined_part(a, b, separator, (n - 1) as nat);
    }
}

} // verus!
