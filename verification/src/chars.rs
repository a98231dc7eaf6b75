//! Executable operations on text, each with the value that `text` describes.

use vstd::prelude::*;
use vstd::slice::slice_subrange;

use crate::text;

verus! {

// ── Strings and lists of characters ──────────────────────────────────────────

/// The characters of a string, one by one.
pub fn to_chars(text: &str) -> (chars: Vec<char>)
    ensures
        chars@ == text@,
{
    let mut chars: Vec<char> = Vec::new();
    for c in it: text.chars()
        invariant
            it.seq() == text@,
            chars@ == text@.take(it.index()),
    {
        chars.push(c);
    }
    chars
}

/// Appends characters to a string.
pub fn push_chars(out: &mut String, chars: &[char])
    ensures
        final(out)@ == old(out)@ + chars@,
{
    for i in 0..chars.len()
        invariant
            out@ == old(out)@ + chars@.take(i as int),
    {
        out.push(chars[i]);
        assert(chars@.take(i + 1) == chars@.take(i as int).push(chars@[i as int]));
    }
    assert(chars@.take(chars@.len() as int) == chars@);
}

/// The string made of the given characters.
pub fn from_chars(chars: &[char]) -> (text: String)
    ensures
        text@ == chars@,
{
    let mut text = String::new();
    push_chars(&mut text, chars);
    assert(text@ == chars@);
    text
}

/// The characters from position `start` on.
pub fn rest(chars: &[char], start: usize) -> (tail: &[char])
    requires
        start <= chars@.len(),
    ensures
        tail@ == chars@.skip(start as int),
{
    let tail = slice_subrange(chars, start, chars.len());
    assert(chars@.subrange(start as int, chars@.len() as int) == chars@.skip(start as int));
    tail
}

/// The characters before position `end`.
pub fn head(chars: &[char], end: usize) -> (front: &[char])
    requires
        end <= chars@.len(),
    ensures
        front@ == chars@.take(end as int),
{
    let front = slice_subrange(chars, 0, end);
    assert(chars@.subrange(0, end as int) == chars@.take(end as int));
    front
}

/// Copies a list of strings.
pub fn clone_all(strings: &Vec<String>) -> (copies: Vec<String>)
    ensures
        text::texts(copies@) == text::texts(strings@),
{
    let mut copies: Vec<String> = Vec::new();
    for i in 0..strings.len()
        invariant
            text::texts(copies@) == text::texts(strings@).take(i as int),
    {
        let ghost before = copies@;
        copies.push(strings[i].clone());
        assert(text::texts(copies@) == text::texts(before).push(strings@[i as int]@));
    }
    copies
}

// ── Searching ────────────────────────────────────────────────────────────────

/// Whether `pattern` stands in `chars` at position `at`.
pub fn occurs_at(chars: &[char], pattern: &[char], at: usize) -> (found: bool)
    ensures
        found == text::occurs_at(chars@, pattern@, at as int),
{
    if at > chars.len() || pattern.len() > chars.len() - at {
        return false;
    }
    for i in 0..pattern.len()
        invariant
            at + pattern.len() <= chars.len(),
            forall|j: int| 0 <= j < i ==> chars@[at + j] == #[trigger] pattern@[j],
    {
        if chars[at + i] != pattern[i] {
            assert(chars@.subrange(at as int, at + pattern@.len())[i as int] != pattern@[i as int]);
            return false;
        }
    }
    assert(chars@.subrange(at as int, at + pattern@.len()) == pattern@);
    true
}

/// The first position of `pattern` in `chars`.
pub fn find(chars: &[char], pattern: &[char]) -> (position: Option<usize>)
    ensures
        position is Some == text::find(chars@, pattern@) is Some,
        position matches Some(i) ==> text::find(chars@, pattern@) == Some(i as int) && i
            + pattern@.len() <= chars.len(),
{
    let mut i: usize = 0;
    while pattern.len() <= chars.len() - i
        invariant
            i <= chars@.len(),
            text::find(chars@, pattern@) == text::find_from(chars@, pattern@, i as int),
        decreases chars@.len() - i,
    {
        if occurs_at(chars, pattern, i) {
            return Some(i);
        }
        if i == chars.len() {
            assert(chars@.subrange(i as int, i + pattern@.len()) == pattern@);
            return Some(i);
        }
        i = i + 1;
    }
    None
}

/// The last position of `pattern` in `chars`.
pub fn rfind(chars: &[char], pattern: &[char]) -> (position: Option<usize>)
    ensures
        position is Some == text::rfind(chars@, pattern@) is Some,
        position matches Some(i) ==> text::rfind(chars@, pattern@) == Some(i as int) && i
            + pattern@.len() <= chars.len(),
{
    let mut i: usize = chars.len();
    loop
        invariant
            i <= chars@.len(),
            text::rfind(chars@, pattern@) == text::rfind_to(chars@, pattern@, i as int),
        decreases i,
    {
        if occurs_at(chars, pattern, i) {
            return Some(i);
        }
        if i == 0 {
            assert(text::rfind_to(chars@, pattern@, -1) is None);
            return None;
        }
        i = i - 1;
    }
}

/// Whether `pattern` stands somewhere in `text`.
pub fn contains(text: &str, pattern: &str) -> (found: bool)
    ensures
        found == text::contains(text@, pattern@),
{
    let chars = to_chars(text);
    let pattern_chars = to_chars(pattern);
    proof {
        text::lemma_find(text@, pattern@);
    }
    find(chars.as_slice(), pattern_chars.as_slice()).is_some()
}

/// Whether `text` begins with `prefix`.
pub fn starts_with(text: &str, prefix: &str) -> (found: bool)
    ensures
        found == text::starts_with(text@, prefix@),
{
    let chars = to_chars(text);
    let prefix_chars = to_chars(prefix);
    occurs_at(chars.as_slice(), prefix_chars.as_slice(), 0)
}

/// What follows `prefix` in `text`, if `text` begins with it.
pub fn strip_prefix(text: &str, prefix: &str) -> (tail: Option<String>)
    ensures
        text::opt_text(tail) == text::strip_prefix(text@, prefix@),
{
    let chars = to_chars(text);
    let prefix_chars = to_chars(prefix);
    if occurs_at(chars.as_slice(), prefix_chars.as_slice(), 0) {
        Some(from_chars(rest(chars.as_slice(), prefix_chars.len())))
    } else {
        None
    }
}

/// Whether two texts have the same characters.
pub fn same_text(a: &str, b: &str) -> (same: bool)
    ensures
        same == (a@ == b@),
{
    let a_bytes = a.as_bytes();
    let b_bytes = b.as_bytes();
    if a_bytes.len() != b_bytes.len() {
        return false;
    }
    for i in 0..a_bytes.len()
        invariant
            a_bytes@.len() == b_bytes@.len(),
            a_bytes@ == vstd::utf8::encode_utf8(a@),
            b_bytes@ == vstd::utf8::encode_utf8(b@),
            forall|j: int| 0 <= j < i ==> a_bytes@[j] == b_bytes@[j],
    {
        if a_bytes[i] != b_bytes[i] {
            return false;
        }
    }
    proof {
        assert(a_bytes@ =~= b_bytes@);
        vstd::utf8::encode_utf8_decode_utf8(a@);
        vstd::utf8::encode_utf8_decode_utf8(b@);
    }
    true
}

// ── White space and case ─────────────────────────────────────────────────────

/// Whether a character has the Unicode property `White_Space`.
pub fn is_whitespace(c: char) -> (space: bool)
    ensures
        space == text::is_whitespace(c),
{
    ('\u{9}' <= c && c <= '\u{D}') || c == '\u{20}' || c == '\u{85}' || c == '\u{A0}' || c
        == '\u{1680}' || ('\u{2000}' <= c && c <= '\u{200A}') || c == '\u{2028}' || c == '\u{2029}'
        || c == '\u{202F}' || c == '\u{205F}' || c == '\u{3000}'
}

/// The characters without leading and trailing white space.
pub fn trim_chars(chars: &[char]) -> (trimmed: &[char])
    ensures
        trimmed@ == text::trim(chars@),
{
    let mut start: usize = 0;
    assert(chars@.skip(0) == chars@);
    while start < chars.len() && is_whitespace(chars[start])
        invariant
            start <= chars@.len(),
            text::trim_start(chars@) == text::trim_start(chars@.skip(start as int)),
        decreases chars@.len() - start,
    {
        assert(chars@.skip(start as int).skip(1) == chars@.skip(start + 1));
        start = start + 1;
    }
    let mut end: usize = chars.len();
    assert(text::trim_start(chars@) == chars@.skip(start as int));
    assert(chars@.skip(start as int) == chars@.subrange(start as int, end as int));
    while start < end && is_whitespace(chars[end - 1])
        invariant
            start <= end <= chars@.len(),
            text::trim(chars@) == text::trim_end(chars@.subrange(start as int, end as int)),
        decreases end,
    {
        assert(chars@.subrange(start as int, end as int).drop_last() == chars@.subrange(
            start as int,
            end - 1,
        ));
        end = end - 1;
    }
    slice_subrange(chars, start, end)
}

/// `text` without leading and trailing white space.
pub fn trim(text: &str) -> (trimmed: String)
    ensures
        trimmed@ == text::trim(text@),
{
    let chars = to_chars(text);
    from_chars(trim_chars(chars.as_slice()))
}

/// `text` with the letters `A` to `Z` made small.
pub fn to_ascii_lowercase(text: &str) -> (lower: String)
    ensures
        lower@ == text::ascii_lowercase(text@),
{
    let mut lower = String::new();
    for c in it: text.chars()
        invariant
            it.seq() == text@,
            lower@ == text::ascii_lowercase(text@.take(it.index())),
    {
        let ghost before = text@.take(it.index());
        assert(text@.take(it.index() + 1) == before.push(c));
        assert(text::ascii_lowercase(before.push(c)) == text::ascii_lowercase(before).push(
            text::ascii_lowercase_char(c),
        ));
        if 'A' <= c && c <= 'Z' {
            lower.push((c as u8 + 32) as char);
        } else {
            lower.push(c);
        }
    }
    assert(text@.take(text@.len() as int) == text@);
    lower
}

/// `str::to_lowercase` gives the lower-case equivalent of the text, which depends on the text
/// alone.
#[verifier::external_body]
pub(crate) fn to_lowercase(text: &str) -> (lower: String)
    ensures
        lower@ == text::lowercase(text@),
{
    text.to_lowercase()
}

// ── Putting together and taking apart ────────────────────────────────────────

/// The strings one after the other, with `separator` between neighbours.
pub fn join(parts: &[String], separator: &str) -> (joined: String)
    ensures
        joined@ == text::join(text::texts(parts@), separator@),
{
    let ghost all = text::texts(parts@);
    let mut joined = String::new();
    for i in 0..parts.len()
        invariant
            all == text::texts(parts@),
            joined@ == text::join(all.take(i as int), separator@),
    {
        let ghost before = all.take(i as int);
        if i > 0 {
            joined.append(separator);
        }
        joined.append(parts[i].as_str());
        proof {
            assert(all.take(i + 1).drop_last() == before);
            if i > 0 {
                assert(text::terminated(before, separator@) == text::terminated(
                    before.drop_last(),
                    separator@,
                ) + before.last() + separator@);
            }
        }
    }
    assert(all.take(parts@.len() as int) == all);
    joined
}

/// The lines of a text, without their line ends.
pub fn lines(text: &str) -> (list: Vec<String>)
    ensures
        text::texts(list@) == text::lines(text@),
{
    let chars = to_chars(text);
    let newline: [char; 1] = ['\n'];
    let mut tail: &[char] = chars.as_slice();
    let mut list: Vec<String> = Vec::new();
    assert(newline@ == seq!['\n']);
    while tail.len() > 0
        invariant
            newline@ == seq!['\n'],
            text::texts(list@) + text::lines(tail@) == text::lines(text@),
        decreases tail@.len(),
    {
        let ghost before = list@;
        let ghost old_tail = tail@;
        match find(tail, &newline) {
            None => {
                list.push(from_chars(tail));
                tail = rest(tail, tail.len());
                proof {
                    assert(text::texts(list@) == text::texts(before) + seq![old_tail]);
                }
            },
            Some(i) => {
                let mut end = i;
                if i > 0 && tail[i - 1] == '\r' {
                    end = i - 1;
                }
                list.push(from_chars(head(tail, end)));
                tail = rest(tail, i + 1);
                proof {
                    let line = text::without_carriage_return(old_tail.take(i as int));
                    if end < i {
                        assert(old_tail.take(i as int).drop_last() == old_tail.take(end as int));
                    }
                    assert(text::texts(list@) == text::texts(before) + seq![line]);
                }
            },
        }
    }
    list
}

// ── Numbers ──────────────────────────────────────────────────────────────────

/// `n` in decimal.
pub fn decimal(n: u64) -> (digits: String)
    ensures
        digits@ == text::decimal(n as nat),
    decreases n,
{
    let last = (48 + (n % 10) as u8) as char;
    if n < 10 {
        let mut digits = String::new();
        digits.push(last);
        assert(digits@ == seq![text::digit(n as nat)]);
        digits
    } else {
        let mut digits = decimal(n / 10);
        digits.push(last);
        digits
    }
}

/// `n` in decimal, with leading zeros up to `width` digits.
pub fn zero_padded(n: u64, width: usize) -> (padded: String)
    ensures
        padded@ == text::zero_padded(n as nat, width as nat),
{
    let digits = decimal(n);
    let count = digits.as_str().unicode_len();
    let mut padded = String::new();
    if count < width {
        for i in 0..(width - count)
            invariant
                padded@ == Seq::new(i as nat, |j: int| '0'),
        {
            padded.push('0');
        }
    }
    padded.append(digits.as_str());
    assert(padded@ == text::zero_padded(n as nat, width as nat));
    padded
}

// ── Order ────────────────────────────────────────────────────────────────────

/// Tells whether a text comes before another in the order of characters.
pub fn text_less(a: &str, b: &str) -> (less: bool)
    ensures
        less == text::text_less(a@, b@),
{
    let a_chars = to_chars(a);
    let b_chars = to_chars(b);
    let mut i: usize = 0;
    assert(a@.skip(0) == a@ && b@.skip(0) == b@);
    loop
        invariant
            a_chars@ == a@,
            b_chars@ == b@,
            i <= a@.len(),
            i <= b@.len(),
            text::text_less(a@.skip(i as int), b@.skip(i as int)) == text::text_less(a@, b@),
        decreases a@.len() - i,
    {
        if i >= b_chars.len() {
            return false;
        }
        if i >= a_chars.len() {
            return true;
        }
        if a_chars[i] != b_chars[i] {
            return a_chars[i] < b_chars[i];
        }
        assert(a@.skip(i as int).skip(1) == a@.skip(i + 1));
        assert(b@.skip(i as int).skip(1) == b@.skip(i + 1));
        i = i + 1;
    }
}

} // verus!
