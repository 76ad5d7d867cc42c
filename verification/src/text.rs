//! Text as sequences of characters: trimming, removing a character, the words
//! of a space-separated list, and short decimal numbers.

use vstd::prelude::*;

verus! {

/// Whether a character beyond ASCII has Unicode's `White_Space` property.
pub uninterp spec fn wide_white_space(c: char) -> bool;

/// The white space of ASCII: the space, and the five characters from tab to
/// carriage return.
pub open spec fn ascii_white_space(c: char) -> bool {
    c == ' ' || '\t' <= c <= '\r'
}

/// Whether `c` has Unicode's `White_Space` property.
pub open spec fn white_space(c: char) -> bool {
    if c <= '\x7f' {
        ascii_white_space(c)
    } else {
        wide_white_space(c)
    }
}

/// `char::is_whitespace` of std: whether the character has the `White_Space`
/// property. Within ASCII the answer is stated: the space, tab, line feed,
/// vertical tab, form feed and carriage return have it, no other. Beyond
/// ASCII the property is a list of Unicode's that may grow with its
/// versions; there the library only relies on the answer being the same for
/// the same character.
pub assume_specification[ char::is_whitespace ](c: char) -> (answer: bool)
    ensures
        answer == if c <= '\x7f' {
            ascii_white_space(c)
        } else {
            wide_white_space(c)
        },
;

/// `String::push` of std: appends one character at the end.
pub assume_specification[ String::push ](s: &mut String, c: char)
    ensures
        final(s)@ == old(s)@.push(c),
;

/// The characters of a text that may be absent.
pub open spec fn optional_text(text: Option<&String>) -> Option<Seq<char>> {
    match text {
        Some(t) => Some(t@),
        None => None,
    }
}

/// `s` without the white space it starts with.
pub open spec fn skip_leading(s: Seq<char>) -> Seq<char>
    decreases s.len(),
{
    if s.len() > 0 && white_space(s.first()) {
        skip_leading(s.drop_first())
    } else {
        s
    }
}

/// `s` without the white space it ends with.
pub open spec fn skip_trailing(s: Seq<char>) -> Seq<char>
    decreases s.len(),
{
    if s.len() > 0 && white_space(s.last()) {
        skip_trailing(s.drop_last())
    } else {
        s
    }
}

/// `s` without the white space at either end.
pub open spec fn trimmed(s: Seq<char>) -> Seq<char> {
    skip_trailing(skip_leading(s))
}

/// `s` without any occurrence of `c`.
pub open spec fn without(s: Seq<char>, c: char) -> Seq<char> {
    s.filter(|x: char| x != c)
}

/// Skipping leading white space leaves the part from the first character
/// that is not white space.
pub proof fn lemma_skip_leading(s: Seq<char>, k: int)
    requires
        0 <= k <= s.len(),
        forall|j: int| 0 <= j < k ==> white_space(#[trigger] s[j]),
        k == s.len() || !white_space(s[k]),
    ensures
        skip_leading(s) == s.subrange(k, s.len() as int),
    decreases k,
{
    if k == 0 {
        assert(s.subrange(0, s.len() as int) =~= s);
    } else {
        let rest = s.drop_first();
        assert(white_space(s[0]));
        assert forall|j: int| 0 <= j < k - 1 implies white_space(#[trigger] rest[j]) by {
            assert(rest[j] == s[j + 1]);
        }
        lemma_skip_leading(rest, k - 1);
        assert(rest.subrange(k - 1, rest.len() as int) =~= s.subrange(k, s.len() as int));
    }
}

/// Skipping trailing white space leaves the part up to the last character
/// that is not white space.
pub proof fn lemma_skip_trailing(s: Seq<char>, k: int)
    requires
        0 <= k <= s.len(),
        forall|j: int| k <= j < s.len() ==> white_space(#[trigger] s[j]),
        k == 0 || !white_space(s[k - 1]),
    ensures
        skip_trailing(s) == s.subrange(0, k),
    decreases s.len() - k,
{
    if k == s.len() {
        assert(s.subrange(0, k) =~= s);
    } else {
        let rest = s.drop_last();
        assert(white_space(s[s.len() - 1]));
        assert forall|j: int| k <= j < rest.len() implies white_space(#[trigger] rest[j]) by {
            assert(rest[j] == s[j]);
        }
        lemma_skip_trailing(rest, k);
        assert(rest.subrange(0, k) =~= s.subrange(0, k));
    }
}

/// The index behind the white space that `s` starts with.
proof fn leading_end(s: Seq<char>) -> (k: int)
    ensures
        0 <= k <= s.len(),
        forall|j: int| 0 <= j < k ==> white_space(#[trigger] s[j]),
        k == s.len() || !white_space(s[k]),
    decreases s.len(),
{
    if s.len() > 0 && white_space(s[0]) {
        let rest = s.drop_first();
        let k = leading_end(rest);
        assert forall|j: int| 0 <= j < k + 1 implies white_space(#[trigger] s[j]) by {
            if j > 0 {
                assert(s[j] == rest[j - 1]);
            }
        }
        if k < rest.len() {
            assert(s[k + 1] == rest[k]);
        }
        k + 1
    } else {
        0
    }
}

/// The index at which the white space that `s` ends with begins.
proof fn trailing_start(s: Seq<char>) -> (k: int)
    ensures
        0 <= k <= s.len(),
        forall|j: int| k <= j < s.len() ==> white_space(#[trigger] s[j]),
        k == 0 || !white_space(s[k - 1]),
    decreases s.len(),
{
    if s.len() > 0 && white_space(s[s.len() - 1]) {
        let rest = s.drop_last();
        let k = trailing_start(rest);
        assert forall|j: int| k <= j < s.len() implies white_space(#[trigger] s[j]) by {
            if j < rest.len() {
                assert(s[j] == rest[j]);
            }
        }
        if k > 0 {
            assert(s[k - 1] == rest[k - 1]);
        }
        k
    } else {
        s.len() as int
    }
}

/// The trimmed text is a part of `s`: all before it and all behind it is
/// white space, and where it is not empty, neither its first nor its last
/// character is.
pub proof fn lemma_trimmed(s: Seq<char>) -> (ends: (int, int))
    ensures
        0 <= ends.0 <= ends.1 <= s.len(),
        trimmed(s) == s.subrange(ends.0, ends.1),
        forall|j: int| 0 <= j < ends.0 ==> white_space(#[trigger] s[j]),
        forall|j: int| ends.1 <= j < s.len() ==> white_space(#[trigger] s[j]),
        ends.0 < ends.1 ==> !white_space(s[ends.0]) && !white_space(s[ends.1 - 1]),
        trimmed(s).len() > 0 ==> !white_space(trimmed(s).first()) && !white_space(
            trimmed(s).last(),
        ),
{
    let from = leading_end(s);
    let rest = s.subrange(from, s.len() as int);
    lemma_skip_leading(s, from);
    let kept = trailing_start(rest);
    lemma_skip_trailing(rest, kept);
    let to = from + kept;
    assert(rest.subrange(0, kept) =~= s.subrange(from, to));
    assert forall|j: int| to <= j < s.len() implies white_space(#[trigger] s[j]) by {
        assert(s[j] == rest[j - from]);
    }
    if kept > 0 {
        assert(rest[kept - 1] == s[to - 1]);
        assert(s.subrange(from, to).first() == s[from]);
        assert(s.subrange(from, to).last() == s[to - 1]);
    }
    (from, to)
}

/// A part of `s` with nothing but white space before and behind it, which
/// neither starts nor ends with white space, is the trimmed text.
pub proof fn lemma_trimmed_is(s: Seq<char>, from: int, to: int)
    requires
        0 <= from <= to <= s.len(),
        forall|j: int| 0 <= j < from ==> white_space(#[trigger] s[j]),
        forall|j: int| to <= j < s.len() ==> white_space(#[trigger] s[j]),
        from < to ==> !white_space(s[from]) && !white_space(s[to - 1]),
    ensures
        trimmed(s) == s.subrange(from, to),
{
    let ends = lemma_trimmed(s);
    if from < to {
        assert(ends.0 == from) by {
            if ends.0 < from {
                assert(white_space(s[ends.0]));
            } else if ends.0 > from {
                assert(white_space(s[from]));
            }
        }
        assert(ends.1 == to) by {
            if ends.1 > to {
                assert(white_space(s[ends.1 - 1]));
            } else if ends.1 < to {
                assert(white_space(s[to - 1]));
            }
        }
    } else {
        if ends.0 < ends.1 {
            if ends.0 < from {
                assert(white_space(s[ends.0]));
            } else {
                assert(white_space(s[ends.0]));
            }
        }
        assert(s.subrange(ends.0, ends.1) =~= s.subrange(from, to));
    }
}

/// What is left of `s` without `c` holds no `c`, and it is `s` itself where
/// `s` holds none.
pub proof fn lemma_without(s: Seq<char>, c: char)
    ensures
        !without(s, c).contains(c),
        !s.contains(c) ==> without(s, c) == s,
    decreases s.len(),
{
    reveal(Seq::filter);
    if s.len() > 0 {
        let rest = s.drop_last();
        lemma_without(rest, c);
        if !s.contains(c) {
            assert forall|j: int| 0 <= j < rest.len() implies rest[j] != c by {
                assert(rest[j] == s[j]);
                assert(s.contains(s[j]));
            }
            assert(!rest.contains(c));
            assert(s.last() != c) by {
                assert(s.contains(s.last()));
            }
            assert(rest.push(s.last()) =~= s);
        }
    }
}

/// The characters of `s`, in order.
pub fn chars_of(s: &str) -> (chars: Vec<char>)
    ensures
        chars@ == s@,
{
    let mut chars: Vec<char> = Vec::new();
    for c in it: s.chars()
        invariant
            chars@ == it.seq().take(it.index() as int),
    {
        chars.push(c);
    }
    chars
}

/// The string made of `chars[from..to]`.
pub fn string_of(chars: &Vec<char>, from: usize, to: usize) -> (out: String)
    requires
        from <= to <= chars.len(),
    ensures
        out@ == chars@.subrange(from as int, to as int),
{
    let mut out = String::new();
    let mut i: usize = from;
    while i < to
        invariant
            from <= i <= to <= chars.len(),
            out@ == chars@.subrange(from as int, i as int),
        decreases to - i,
    {
        out.push(chars[i]);
        i += 1;
        assert(chars@.subrange(from as int, i as int) == chars@.subrange(
            from as int,
            i - 1,
        ).push(chars@[i - 1]));
    }
    out
}

/// `s` without the white space at either end.
pub fn trim(s: &str) -> (out: String)
    ensures
        out@ == trimmed(s@),
        out@.len() > 0 ==> !white_space(out@.first()) && !white_space(out@.last()),
{
    let chars = chars_of(s);
    let mut start: usize = 0;
    while start < chars.len() && chars[start].is_whitespace()
        invariant
            start <= chars.len(),
            forall|j: int| 0 <= j < start ==> white_space(#[trigger] chars@[j]),
        decreases chars.len() - start,
    {
        start += 1;
    }
    let mut end: usize = chars.len();
    while end > start && chars[end - 1].is_whitespace()
        invariant
            start <= end <= chars.len(),
            forall|j: int| end <= j < chars.len() ==> white_space(#[trigger] chars@[j]),
        decreases end,
    {
        end -= 1;
    }
    proof {
        lemma_trimmed_is(chars@, start as int, end as int);
        lemma_trimmed(s@);
    }
    string_of(&chars, start, end)
}

/// `s` without any occurrence of `c`.
pub fn remove_char(s: &str, c: char) -> (out: String)
    ensures
        out@ == without(s@, c),
        !out@.contains(c),
{
    let chars = chars_of(s);
    let mut out = String::new();
    let mut i: usize = 0;
    proof {
        reveal(Seq::filter);
        assert(chars@.take(0) =~= Seq::<char>::empty());
    }
    while i < chars.len()
        invariant
            i <= chars.len(),
            chars@ == s@,
            out@ == without(chars@.take(i as int), c),
            forall|j: int| 0 <= j < out@.len() ==> out@[j] != c,
        decreases chars.len() - i,
    {
        proof {
            reveal(Seq::filter);
            assert(chars@.take(i + 1).drop_last() =~= chars@.take(i as int));
        }
        if chars[i] != c {
            out.push(chars[i]);
        }
        i += 1;
    }
    assert(chars@.take(i as int) =~= chars@);
    out
}

/// Whether `list[from..to]` is one of the parts into which white space
/// divides `list`: it reaches from the start of the list, or from behind a
/// white space, to the next white space or the end.
pub open spec fn is_part(list: Seq<char>, from: int, to: int) -> bool {
    &&& 0 <= from <= to <= list.len()
    &&& (from == 0 || white_space(list[from - 1]))
    &&& (to == list.len() || white_space(list[to]))
    &&& forall|j: int| from <= j < to ==> !white_space(#[trigger] list[j])
}

/// Whether `item` is one of the parts into which white space divides `list`.
pub open spec fn list_has(list: Seq<char>, item: Seq<char>) -> bool {
    exists|from: int, to: int| #[trigger]
        is_part(list, from, to) && list.subrange(from, to) == item
}

/// Whether `chars[from..to]` holds the characters of `item`.
pub fn holds_at(chars: &Vec<char>, from: usize, to: usize, item: &Vec<char>) -> (same: bool)
    requires
        from <= to <= chars.len(),
    ensures
        same == (chars@.subrange(from as int, to as int) == item@),
{
    if to - from != item.len() {
        return false;
    }
    let mut i: usize = 0;
    while i < item.len()
        invariant
            from <= to <= chars.len(),
            to - from == item.len(),
            i <= item.len(),
            forall|j: int| 0 <= j < i ==> chars@[from + j] == item@[j],
        decreases item.len() - i,
    {
        if chars[from + i] != item[i] {
            assert(chars@.subrange(from as int, to as int)[i as int] != item@[i as int]);
            return false;
        }
        i += 1;
    }
    assert(chars@.subrange(from as int, to as int) =~= item@);
    true
}

/// Whether the two texts hold the same characters.
pub fn text_equals(a: &str, b: &str) -> (same: bool)
    ensures
        same == (a@ == b@),
{
    let left = chars_of(a);
    let right = chars_of(b);
    assert(left@.subrange(0, left@.len() as int) =~= a@);
    holds_at(&left, 0, left.len(), &right)
}

/// Whether `item` is one of the parts into which white space divides `list`.
pub fn list_contains(list: &str, item: &str) -> (found: bool)
    ensures
        found == list_has(list@, item@),
{
    let chars = chars_of(list);
    let wanted = chars_of(item);
    let mut from: usize = 0;
    loop
        invariant
            chars@ == list@,
            wanted@ == item@,
            from <= chars.len(),
            from == 0 || white_space(chars@[from - 1]),
            forall|a: int, b: int|
                a < from && #[trigger] is_part(chars@, a, b) ==> chars@.subrange(a, b) != wanted@,
        decreases chars.len() - from,
    {
        let mut to: usize = from;
        while to < chars.len() && !chars[to].is_whitespace()
            invariant
                from <= to <= chars.len(),
                forall|j: int| from <= j < to ==> !white_space(#[trigger] chars@[j]),
            decreases chars.len() - to,
        {
            to += 1;
        }
        assert(is_part(chars@, from as int, to as int));
        if holds_at(&chars, from, to, &wanted) {
            return true;
        }
        assert forall|a: int, b: int| a <= to && #[trigger] is_part(chars@, a, b) implies chars@.subrange(
            a,
            b,
        ) != wanted@ by {
            if a == from {
                if b < to {
                    assert(!white_space(chars@[b]));
                } else if b > to {
                    assert(white_space(chars@[to as int]));
                }
            } else if a > from {
                assert(!white_space(chars@[a - 1]));
            }
        }
        if to == chars.len() {
            assert forall|a: int, b: int| #[trigger] is_part(chars@, a, b) implies chars@.subrange(
                a,
                b,
            ) != wanted@ by {}
            return false;
        }
        from = to + 1;
    }
}

/// Whether `c` is one of the ten decimal digits `0` to `9`.
pub open spec fn is_digit(c: char) -> bool {
    '0' <= c <= '9'
}

/// The number that a decimal digit stands for.
pub open spec fn digit_value(c: char) -> nat {
    (c as int - '0' as int) as nat
}

/// Whether `s` is a decimal number of one or two digits.
pub open spec fn is_short_number(s: Seq<char>) -> bool {
    &&& 1 <= s.len() <= 2
    &&& forall|j: int| 0 <= j < s.len() ==> is_digit(#[trigger] s[j])
}

/// The number that one or two decimal digits stand for.
pub open spec fn short_number(s: Seq<char>) -> nat {
    if s.len() == 1 {
        digit_value(s[0])
    } else {
        10 * digit_value(s[0]) + digit_value(s[1])
    }
}

/// The number that the character stands for, where it is a decimal digit.
pub fn parse_digit(c: char) -> (number: Option<usize>)
    ensures
        number == if is_digit(c) {
            Some(digit_value(c) as usize)
        } else {
            None
        },
        number matches Some(n) ==> n <= 9,
{
    if '0' <= c && c <= '9' {
        Some(c as usize - '0' as usize)
    } else {
        None
    }
}

/// The number that `s` stands for, where `s` is one or two decimal digits.
pub fn parse_short_number(s: &str) -> (number: Option<usize>)
    ensures
        number == if is_short_number(s@) {
            Some(short_number(s@) as usize)
        } else {
            None
        },
        number matches Some(n) ==> n <= 99,
{
    let chars = chars_of(s);
    if chars.len() == 1 {
        parse_digit(chars[0])
    } else if chars.len() == 2 {
        match (parse_digit(chars[0]), parse_digit(chars[1])) {
            (Some(tens), Some(ones)) => Some(10 * tens + ones),
            _ => None,
        }
    } else {
        None
    }
}

} // verus!
