//! Text primitives shared by the other modules.
//!
//! Every function here is stated over `Seq<char>`, the mathematical view of a
//! `str` or `String`.

use vstd::prelude::*;

verus! {

/// `text` with every occurrence of `unwanted` taken out.
pub open spec fn without(text: Seq<char>, unwanted: char) -> Seq<char>
    decreases text.len(),
{
    if text.len() == 0 {
        text
    } else if text.last() == unwanted {
        without(text.drop_last(), unwanted)
    } else {
        without(text.drop_last(), unwanted).push(text.last())
    }
}

/// `text` with every occurrence of `target` replaced by `replacement`.
pub open spec fn substituted(text: Seq<char>, target: char, replacement: Seq<char>) -> Seq<char>
    decreases text.len(),
{
    if text.len() == 0 {
        text
    } else if text.last() == target {
        substituted(text.drop_last(), target, replacement) + replacement
    } else {
        substituted(text.drop_last(), target, replacement).push(text.last())
    }
}

/// The parts in order, with `separator` between each two neighbours.
pub open spec fn joined(parts: Seq<Seq<char>>, separator: Seq<char>) -> Seq<char>
    decreases parts.len(),
{
    if parts.len() == 0 {
        Seq::empty()
    } else if parts.len() == 1 {
        parts[0]
    } else {
        joined(parts.drop_last(), separator) + separator + parts.last()
    }
}

/// The path that results from resolving `relative` against `base`: an
/// absolute `relative` stands alone, and a separator is put between the two
/// unless `base` is empty or already ends in one.
pub open spec fn joined_path(base: Seq<char>, relative: Seq<char>) -> Seq<char> {
    if relative.len() > 0 && relative[0] == '/' {
        relative
    } else if base.len() == 0 || base.last() == '/' {
        base + relative
    } else {
        base.push('/') + relative
    }
}

/// Whether `part` stands in `text` from the character at `at` on.
pub open spec fn occurs_at(text: Seq<char>, part: Seq<char>, at: int) -> bool {
    &&& 0 <= at
    &&& at + part.len() <= text.len()
    &&& text.subrange(at, at + part.len()) == part
}

/// Whether `part` stands somewhere in `text`.
pub open spec fn occurs(text: Seq<char>, part: Seq<char>) -> bool {
    exists|at: int| occurs_at(text, part, at)
}

/// Whether `c` is one of the ten decimal digits `0` to `9`.
pub open spec fn is_digit(c: char) -> bool {
    '0' <= c && c <= '9'
}

/// Whether `text` is a decimal numeral: one digit or more, and nothing else.
pub open spec fn is_numeral(text: Seq<char>) -> bool {
    &&& text.len() > 0
    &&& forall|i: int| 0 <= i < text.len() ==> is_digit(#[trigger] text[i])
}

/// The number that the digits of `text` denote in base ten.
pub open spec fn numeral_value(text: Seq<char>) -> nat
    decreases text.len(),
{
    if text.len() == 0 {
        0
    } else {
        (numeral_value(text.drop_last()) * 10 + (text.last() as nat - '0' as nat)) as nat
    }
}

/// The number that `text` denotes, where it is a numeral of at most
/// `u16::MAX`.
pub open spec fn small_number(text: Seq<char>) -> Option<u16> {
    if is_numeral(text) && numeral_value(text) <= u16::MAX {
        Some(numeral_value(text) as u16)
    } else {
        None
    }
}

/// A numeral denotes at least what any of its prefixes denotes.
proof fn lemma_numeral_value_grows(text: Seq<char>, n: int)
    requires
        0 <= n <= text.len(),
        forall|i: int| 0 <= i < text.len() ==> is_digit(#[trigger] text[i]),
    ensures
        numeral_value(text.take(n)) <= numeral_value(text),
    decreases text.len() - n,
{
    if n == text.len() {
        assert(text.take(n) == text);
    } else {
        lemma_numeral_value_grows(text, n + 1);
        assert(text.take(n + 1).drop_last() == text.take(n));
        assert(is_digit(text[n]));
    }
}

/// Whether `c` is white space: a character with the Unicode property
/// `White_Space`.
pub open spec fn is_white_space(c: char) -> bool {
    let code = c as u32;
    ||| 0x0009 <= code <= 0x000D
    ||| code == 0x0020
    ||| code == 0x0085
    ||| code == 0x00A0
    ||| code == 0x1680
    ||| 0x2000 <= code <= 0x200A
    ||| code == 0x2028
    ||| code == 0x2029
    ||| code == 0x202F
    ||| code == 0x205F
    ||| code == 0x3000
}

/// `text` without the white space at its start.
pub open spec fn trimmed_start(text: Seq<char>) -> Seq<char>
    decreases text.len(),
{
    if text.len() > 0 && is_white_space(text[0]) {
        trimmed_start(text.drop_first())
    } else {
        text
    }
}

/// `text` without the white space at its end.
pub open spec fn trimmed_end(text: Seq<char>) -> Seq<char>
    decreases text.len(),
{
    if text.len() > 0 && is_white_space(text.last()) {
        trimmed_end(text.drop_last())
    } else {
        text
    }
}

/// `text` without the white space at its start and at its end.
pub open spec fn trimmed(text: Seq<char>) -> Seq<char> {
    trimmed_end(trimmed_start(text))
}

/// Calls `String::push`: the string afterwards is the string before with `c`
/// at its end.
#[verifier::external_body]
pub(crate) fn push_char(s: &mut String, c: char)
    ensures
        final(s)@ == old(s)@.push(c),
{
    s.push(c);
}

/// The characters of `s`, in order.
pub fn chars_of(s: &str) -> (r: Vec<char>)
    ensures
        r@ == s@,
{
    let mut out: Vec<char> = Vec::new();
    for c in it: s.chars()
        invariant
            it.seq() == s@,
            out@ == it.seq().take(it.index()),
    {
        out.push(c);
        assert(it.seq().take(it.index() + 1) == it.seq().take(it.index()).push(c));
    }
    assert(s@.take(s@.len() as int) == s@);
    out
}

/// A string made of the characters `chars[from..to]`.
pub fn string_of(chars: &Vec<char>, from: usize, to: usize) -> (r: String)
    requires
        from <= to <= chars@.len(),
    ensures
        r@ == chars@.subrange(from as int, to as int),
{
    let mut out = String::new();
    let mut i: usize = from;
    while i < to
        invariant
            from <= i <= to <= chars@.len(),
            out@ == chars@.subrange(from as int, i as int),
        decreases to - i,
    {
        push_char(&mut out, chars[i]);
        assert(chars@.subrange(from as int, i + 1) == chars@.subrange(from as int, i as int).push(
            chars@[i as int],
        ));
        i += 1;
    }
    out
}

/// `text` without its occurrences of `unwanted`.
pub fn remove_char(text: &str, unwanted: char) -> (r: String)
    ensures
        r@ == without(text@, unwanted),
{
    let chars = chars_of(text);
    let mut out = String::new();
    let mut i: usize = 0;
    while i < chars.len()
        invariant
            i <= chars@.len(),
            chars@ == text@,
            out@ == without(text@.take(i as int), unwanted),
        decreases chars.len() - i,
    {
        let c = chars[i];
        assert(text@.take(i + 1).drop_last() == text@.take(i as int));
        if c != unwanted {
            push_char(&mut out, c);
        }
        i += 1;
    }
    assert(text@.take(text@.len() as int) == text@);
    out
}

/// `text` with each `target` replaced by `replacement`.
pub fn substitute(text: &str, target: char, replacement: &str) -> (r: String)
    ensures
        r@ == substituted(text@, target, replacement@),
{
    let chars = chars_of(text);
    let mut out = String::new();
    let mut i: usize = 0;
    while i < chars.len()
        invariant
            i <= chars@.len(),
            chars@ == text@,
            out@ == substituted(text@.take(i as int), target, replacement@),
        decreases chars.len() - i,
    {
        let c = chars[i];
        assert(text@.take(i + 1).drop_last() == text@.take(i as int));
        if c == target {
            out.append(replacement);
        } else {
            push_char(&mut out, c);
        }
        i += 1;
    }
    assert(text@.take(text@.len() as int) == text@);
    out
}

/// Whether `part` stands somewhere in `text`.
pub fn contains(text: &str, part: &str) -> (r: bool)
    ensures
        r == occurs(text@, part@),
{
    let chars = chars_of(text);
    let wanted = chars_of(part);
    if wanted.len() > chars.len() {
        return false;
    }
    let last: usize = chars.len() - wanted.len();
    let mut at: usize = 0;
    loop
        invariant
            at <= last,
            last + wanted@.len() == chars@.len(),
            chars@.len() <= usize::MAX,
            chars@ == text@,
            wanted@ == part@,
            forall|before: int| 0 <= before < at ==> !occurs_at(text@, part@, before),
        decreases last - at,
    {
        let mut same: usize = 0;
        while same < wanted.len() && chars[at + same] == wanted[same]
            invariant
                at <= last,
                last + wanted@.len() == chars@.len(),
                chars@.len() <= usize::MAX,
                same <= wanted@.len(),
                forall|i: int| 0 <= i < same ==> chars@[at + i] == wanted@[i],
            decreases wanted.len() - same,
        {
            same += 1;
        }
        if same == wanted.len() {
            assert(text@.subrange(at as int, at + part@.len()) =~= part@);
            assert(occurs_at(text@, part@, at as int));
            return true;
        }
        assert(text@.subrange(at as int, at + part@.len())[same as int] != part@[same as int]);
        if at == last {
            return false;
        }
        at += 1;
    }
}

/// Whether `c` is white space.
pub fn white_space(c: char) -> (r: bool)
    ensures
        r == is_white_space(c),
{
    let code = c as u32;
    (0x0009 <= code && code <= 0x000D) || code == 0x0020 || code == 0x0085 || code == 0x00A0
        || code == 0x1680 || (0x2000 <= code && code <= 0x200A) || code == 0x2028 || code
        == 0x2029 || code == 0x202F || code == 0x205F || code == 0x3000
}

/// `text` without the white space around it.
pub fn trim(text: &str) -> (r: String)
    ensures
        r@ == trimmed(text@),
{
    let chars = chars_of(text);
    let mut from: usize = 0;
    assert(text@.skip(0) == text@);
    while from < chars.len() && white_space(chars[from])
        invariant
            from <= chars@.len(),
            chars@ == text@,
            trimmed_start(text@) == trimmed_start(text@.skip(from as int)),
        decreases chars.len() - from,
    {
        assert(text@.skip(from as int).drop_first() == text@.skip(from + 1));
        from += 1;
    }
    let ghost rest = text@.skip(from as int);
    assert(trimmed_start(text@) == rest);
    let mut to: usize = chars.len();
    assert(text@.subrange(from as int, to as int) == rest);
    while from < to && white_space(chars[to - 1])
        invariant
            from <= to <= chars@.len(),
            chars@ == text@,
            trimmed_end(rest) == trimmed_end(text@.subrange(from as int, to as int)),
        decreases to - from,
    {
        assert(text@.subrange(from as int, to as int).drop_last() == text@.subrange(
            from as int,
            to - 1,
        ));
        to -= 1;
    }
    string_of(&chars, from, to)
}

/// The parts joined by `separator`.
pub fn join(parts: &Vec<String>, separator: &str) -> (r: String)
    ensures
        r@ == joined(parts.deep_view(), separator@),
{
    let mut out = String::new();
    let mut i: usize = 0;
    while i < parts.len()
        invariant
            i <= parts@.len(),
            out@ == joined(parts.deep_view().take(i as int), separator@),
        decreases parts.len() - i,
    {
        assert(parts.deep_view().take(i + 1).drop_last() == parts.deep_view().take(i as int));
        assert(parts.deep_view().take(i + 1).last() == parts@[i as int]@);
        if i > 0 {
            out.append(separator);
        }
        out.append(parts[i].as_str());
        i += 1;
    }
    assert(parts.deep_view().take(parts@.len() as int) == parts.deep_view());
    out
}

/// Reads `text` as a decimal numeral that fits a `u16`.
pub fn parse_small_number(text: &str) -> (r: Option<u16>)
    ensures
        r == small_number(text@),
{
    let chars = chars_of(text);
    if chars.len() == 0 {
        return None;
    }
    let mut value: u32 = 0;
    let mut i: usize = 0;
    while i < chars.len()
        invariant
            i <= chars@.len(),
            chars@ == text@,
            forall|j: int| 0 <= j < i ==> is_digit(#[trigger] text@[j]),
            value == numeral_value(text@.take(i as int)),
            value <= u16::MAX,
        decreases chars.len() - i,
    {
        let c = chars[i];
        if !('0' <= c && c <= '9') {
            return None;
        }
        assert(text@.take(i + 1).drop_last() == text@.take(i as int));
        value = value * 10 + (c as u32 - '0' as u32);
        i += 1;
        if value > 65535 {
            proof {
                if is_numeral(text@) {
                    lemma_numeral_value_grows(text@, i as int);
                }
            }
            return None;
        }
    }
    assert(text@.take(text@.len() as int) == text@);
    Some(value as u16)
}

/// `relative` resolved against `base`.
pub fn join_path(base: &str, relative: &str) -> (r: String)
    ensures
        r@ == joined_path(base@, relative@),
{
    let head = chars_of(base);
    let tail = chars_of(relative);
    if tail.len() > 0 && tail[0] == '/' {
        return relative.to_owned();
    }
    let mut out = base.to_owned();
    if head.len() > 0 && head[head.len() - 1] != '/' {
        push_char(&mut out, '/');
    }
    out.append(relative);
    out
}

} // verus!
