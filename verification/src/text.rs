//! Text as sequences of characters: the vocabulary that the contracts of the other modules are
//! written in, and the executable operations that go with it.
//!
//! Positions count characters, not bytes.

use vstd::prelude::*;

verus! {

/// `String::push` appends one character to the end of the string.
pub assume_specification[ String::push ](string: &mut String, c: char)
    ensures
        final(string)@ == old(string)@.push(c),
;

/// The texts that a list of strings holds.
pub open spec fn texts(strings: Seq<String>) -> Seq<Seq<char>> {
    Seq::new(strings.len(), |i: int| strings[i]@)
}

/// The text that an optional string holds.
pub open spec fn opt_text(string: Option<String>) -> Option<Seq<char>> {
    match string {
        Some(s) => Some(s@),
        None => None,
    }
}

// ── Searching ────────────────────────────────────────────────────────────────

/// `pattern` stands in `text` with its first character at position `i`.
pub open spec fn occurs_at(text: Seq<char>, pattern: Seq<char>, i: int) -> bool {
    &&& 0 <= i
    &&& i + pattern.len() <= text.len()
    &&& text.subrange(i, i + pattern.len()) == pattern
}

/// `pattern` stands somewhere in `text`.
pub open spec fn contains(text: Seq<char>, pattern: Seq<char>) -> bool {
    exists|i: int| occurs_at(text, pattern, i)
}

/// `text` begins with `pattern`.
pub open spec fn starts_with(text: Seq<char>, pattern: Seq<char>) -> bool {
    occurs_at(text, pattern, 0)
}

/// What follows `prefix` in `text`, if `text` begins with it.
pub open spec fn strip_prefix(text: Seq<char>, prefix: Seq<char>) -> Option<Seq<char>> {
    if starts_with(text, prefix) {
        Some(text.skip(prefix.len() as int))
    } else {
        None
    }
}

/// The first position, from `start` on, at which `pattern` stands in `text`.
pub open spec fn find_from(text: Seq<char>, pattern: Seq<char>, start: int) -> Option<int>
    decreases text.len() + 1 - start,
{
    if start < 0 || start + pattern.len() > text.len() {
        None
    } else if occurs_at(text, pattern, start) {
        Some(start)
    } else {
        find_from(text, pattern, start + 1)
    }
}

/// The first position at which `pattern` stands in `text`.
pub open spec fn find(text: Seq<char>, pattern: Seq<char>) -> Option<int> {
    find_from(text, pattern, 0)
}

/// The last position, up to `end`, at which `pattern` stands in `text`.
pub open spec fn rfind_to(text: Seq<char>, pattern: Seq<char>, end: int) -> Option<int>
    decreases end + 1,
{
    if end < 0 {
        None
    } else if occurs_at(text, pattern, end) {
        Some(end)
    } else {
        rfind_to(text, pattern, end - 1)
    }
}

/// The last position at which `pattern` stands in `text`.
pub open spec fn rfind(text: Seq<char>, pattern: Seq<char>) -> Option<int> {
    rfind_to(text, pattern, text.len() as int)
}

/// `find_from` gives the least position of the pattern at or after `start`, and nothing exactly
/// when there is no such position.
pub proof fn lemma_find_from(text: Seq<char>, pattern: Seq<char>, start: int)
    requires
        0 <= start,
    ensures
        match find_from(text, pattern, start) {
            Some(i) => {
                &&& start <= i
                &&& occurs_at(text, pattern, i)
                &&& forall|j: int| start <= j < i ==> !#[trigger] occurs_at(text, pattern, j)
            },
            None => forall|j: int| start <= j ==> !#[trigger] occurs_at(text, pattern, j),
        },
    decreases text.len() + 1 - start,
{
    if start + pattern.len() <= text.len() && !occurs_at(text, pattern, start) {
        lemma_find_from(text, pattern, start + 1);
    }
}

/// `find` gives the least position of the pattern, and nothing exactly when the text does not
/// contain it.
pub proof fn lemma_find(text: Seq<char>, pattern: Seq<char>)
    ensures
        match find(text, pattern) {
            Some(i) => {
                &&& occurs_at(text, pattern, i)
                &&& forall|j: int| j < i ==> !#[trigger] occurs_at(text, pattern, j)
            },
            None => !contains(text, pattern),
        },
        find(text, pattern) is Some <==> contains(text, pattern),
{
    lemma_find_from(text, pattern, 0);
}

/// `rfind_to` gives the greatest position of the pattern up to `end`, and nothing exactly when
/// there is no such position.
pub proof fn lemma_rfind_to(text: Seq<char>, pattern: Seq<char>, end: int)
    ensures
        match rfind_to(text, pattern, end) {
            Some(i) => {
                &&& i <= end
                &&& occurs_at(text, pattern, i)
                &&& forall|j: int| i < j <= end ==> !#[trigger] occurs_at(text, pattern, j)
            },
            None => forall|j: int| j <= end ==> !#[trigger] occurs_at(text, pattern, j),
        },
    decreases end + 1,
{
    if end >= 0 && !occurs_at(text, pattern, end) {
        lemma_rfind_to(text, pattern, end - 1);
    }
}

/// A position that is the first one at which the pattern stands is the one that `find` gives.
pub proof fn lemma_find_is(text: Seq<char>, pattern: Seq<char>, i: int)
    requires
        occurs_at(text, pattern, i),
        forall|j: int| j < i ==> !#[trigger] occurs_at(text, pattern, j),
    ensures
        find(text, pattern) == Some(i),
{
    lemma_find(text, pattern);
    let k = find(text, pattern).unwrap();
    assert(!(k < i) && !(i < k));
}

// ── White space and case ─────────────────────────────────────────────────────

/// The characters with the Unicode property `White_Space`.
pub open spec fn is_whitespace(c: char) -> bool {
    ||| '\u{9}' <= c <= '\u{D}'
    ||| c == '\u{20}'
    ||| c == '\u{85}'
    ||| c == '\u{A0}'
    ||| c == '\u{1680}'
    ||| '\u{2000}' <= c <= '\u{200A}'
    ||| c == '\u{2028}'
    ||| c == '\u{2029}'
    ||| c == '\u{202F}'
    ||| c == '\u{205F}'
    ||| c == '\u{3000}'
}

/// `text` without its leading white space.
pub open spec fn trim_start(text: Seq<char>) -> Seq<char>
    decreases text.len(),
{
    if text.len() > 0 && is_whitespace(text[0]) {
        trim_start(text.skip(1))
    } else {
        text
    }
}

/// `text` without its trailing white space.
pub open spec fn trim_end(text: Seq<char>) -> Seq<char>
    decreases text.len(),
{
    if text.len() > 0 && is_whitespace(text.last()) {
        trim_end(text.drop_last())
    } else {
        text
    }
}

/// `text` without its leading and trailing white space.
pub open spec fn trim(text: Seq<char>) -> Seq<char> {
    trim_end(trim_start(text))
}

/// The letters `A` to `Z` made small, every other character as it is.
pub open spec fn ascii_lowercase_char(c: char) -> char {
    if 'A' <= c <= 'Z' {
        (c as int + 32) as char
    } else {
        c
    }
}

/// `text` with the letters `A` to `Z` made small.
pub open spec fn ascii_lowercase(text: Seq<char>) -> Seq<char> {
    Seq::new(text.len(), |i: int| ascii_lowercase_char(text[i]))
}

/// `text` in lower case, as Unicode has it.
pub uninterp spec fn lowercase(text: Seq<char>) -> Seq<char>;

// ── Putting together and taking apart ────────────────────────────────────────

/// The parts one after the other, each followed by `end`.
pub open spec fn terminated(parts: Seq<Seq<char>>, end: Seq<char>) -> Seq<char>
    decreases parts.len(),
{
    if parts.len() == 0 {
        Seq::empty()
    } else {
        terminated(parts.drop_last(), end) + parts.last() + end
    }
}

/// The parts one after the other, with `separator` between neighbours.
pub open spec fn join(parts: Seq<Seq<char>>, separator: Seq<char>) -> Seq<char> {
    if parts.len() == 0 {
        Seq::empty()
    } else {
        terminated(parts.drop_last(), separator) + parts.last()
    }
}

/// Every character replaced by the text that `image` gives for it.
pub open spec fn expand(text: Seq<char>, image: spec_fn(char) -> Seq<char>) -> Seq<char>
    decreases text.len(),
{
    if text.len() == 0 {
        Seq::empty()
    } else {
        expand(text.drop_last(), image) + image(text.last())
    }
}

/// A line without the carriage return that belonged to its line end.
pub open spec fn without_carriage_return(line: Seq<char>) -> Seq<char> {
    if line.len() > 0 && line.last() == '\r' {
        line.drop_last()
    } else {
        line
    }
}

/// The lines of a text. A line ends with a newline, or with a carriage return and a newline; the
/// last line may go without. The line ends are not part of the lines.
pub open spec fn lines(text: Seq<char>) -> Seq<Seq<char>>
    decreases text.len(),
{
    if text.len() == 0 {
        Seq::empty()
    } else {
        match find_from(text, seq!['\n'], 0) {
            None => seq![text],
            Some(i) => if 0 <= i < text.len() {
                seq![without_carriage_return(text.take(i))] + lines(text.skip(i + 1))
            } else {
                Seq::empty()
            },
        }
    }
}

// ── Numbers ──────────────────────────────────────────────────────────────────

/// The character of a decimal digit.
pub open spec fn digit(d: nat) -> char {
    (48 + d) as char
}

/// `n` in decimal, without leading zeros.
pub open spec fn decimal(n: nat) -> Seq<char>
    decreases n,
{
    if n < 10 {
        seq![digit(n)]
    } else {
        decimal(n / 10).push(digit(n % 10))
    }
}

/// `n` in decimal with as many leading zeros as it takes to reach `width` digits.
pub open spec fn zero_padded(n: nat, width: nat) -> Seq<char> {
    let digits = decimal(n);
    if digits.len() < width {
        Seq::new((width - digits.len()) as nat, |i: int| '0') + digits
    } else {
        digits
    }
}

// ── Order ────────────────────────────────────────────────────────────────────

/// `a` comes before `b` in the order of characters: at the first difference its character is the
/// lesser one, or it ends there.
pub open spec fn text_less(a: Seq<char>, b: Seq<char>) -> bool
    decreases a.len(),
{
    if b.len() == 0 {
        false
    } else if a.len() == 0 {
        true
    } else if a[0] != b[0] {
        a[0] < b[0]
    } else {
        text_less(a.skip(1), b.skip(1))
    }
}

/// The order of texts is one: of two different texts one comes first, and not the other.
pub proof fn lemma_text_less_total(a: Seq<char>, b: Seq<char>)
    ensures
        a == b ==> !text_less(a, b),
        a != b ==> text_less(a, b) != text_less(b, a),
    decreases a.len(),
{
    if a.len() > 0 && b.len() > 0 && a[0] == b[0] {
        lemma_text_less_total(a.skip(1), b.skip(1));
        if a.skip(1) == b.skip(1) {
            assert(a =~= seq![a[0]] + a.skip(1));
            assert(b =~= seq![b[0]] + b.skip(1));
        }
    } else if a.len() == 0 && b.len() == 0 {
        assert(a =~= b);
    }
}

/// What comes before a text comes before all that comes after it.
pub proof fn lemma_text_less_transitive(a: Seq<char>, b: Seq<char>, c: Seq<char>)
    requires
        text_less(a, b),
        text_less(b, c),
    ensures
        text_less(a, c),
    decreases a.len(),
{
    if a.len() > 0 && a[0] == b[0] && b[0] == c[0] {
        lemma_text_less_transitive(a.skip(1), b.skip(1), c.skip(1));
    }
}

proof fn lemma_text_less_push(a: Seq<char>, b: Seq<char>, x: char, y: char)
    requires
        a.len() == b.len(),
        text_less(a, b) || (a == b && x < y),
    ensures
        text_less(a.push(x), b.push(y)),
    decreases a.len(),
{
    if a.len() == 0 {
    } else {
        assert(a.push(x).skip(1) == a.skip(1).push(x));
        assert(b.push(y).skip(1) == b.skip(1).push(y));
        if a[0] == b[0] {
            lemma_text_less_push(a.skip(1), b.skip(1), x, y);
        }
    }
}

/// The last `width` decimal digits of `n`.
spec fn last_digits(n: nat, width: nat) -> Seq<char>
    decreases width,
{
    if width == 0 {
        Seq::empty()
    } else {
        last_digits(n / 10, (width - 1) as nat).push(digit(n % 10))
    }
}

proof fn lemma_last_digits_len(n: nat, width: nat)
    ensures
        last_digits(n, width).len() == width,
    decreases width,
{
    if width > 0 {
        lemma_last_digits_len(n / 10, (width - 1) as nat);
    }
}

proof fn lemma_last_digits_of_zero(width: nat)
    ensures
        last_digits(0, width) == Seq::new(width, |i: int| '0'),
    decreases width,
{
    if width > 0 {
        lemma_last_digits_of_zero((width - 1) as nat);
        assert(last_digits(0, width) =~= Seq::new(width, |i: int| '0'));
    } else {
        assert(last_digits(0, 0) =~= Seq::new(0, |i: int| '0'));
    }
}

proof fn lemma_zero_padded_digits(n: nat, width: nat)
    requires
        decimal(n).len() <= width,
    ensures
        zero_padded(n, width) == last_digits(n, width),
    decreases n,
{
    if n < 10 {
        lemma_last_digits_of_zero((width - 1) as nat);
        assert(zero_padded(n, width) =~= last_digits(n, width));
    } else {
        lemma_zero_padded_digits(n / 10, (width - 1) as nat);
        assert(zero_padded(n, width) =~= zero_padded(n / 10, (width - 1) as nat).push(
            digit(n % 10),
        ));
    }
}

proof fn lemma_last_digits_less(n: nat, m: nat, width: nat)
    requires
        n < m,
        decimal(m).len() <= width,
    ensures
        text_less(last_digits(n, width), last_digits(m, width)),
    decreases width,
{
    let front = (width - 1) as nat;
    lemma_last_digits_len(n / 10, front);
    lemma_last_digits_len(m / 10, front);
    if n / 10 < m / 10 {
        lemma_last_digits_less(n / 10, m / 10, front);
    } else {
        assert(n / 10 == m / 10);
    }
    lemma_text_less_push(
        last_digits(n / 10, front),
        last_digits(m / 10, front),
        digit(n % 10),
        digit(m % 10),
    );
}

/// A greater number does not take fewer digits.
pub proof fn lemma_decimal_len(n: nat, m: nat)
    requires
        n <= m,
    ensures
        1 <= decimal(n).len() <= decimal(m).len(),
    decreases m,
{
    if n >= 10 {
        lemma_decimal_len(n / 10, m / 10);
    } else if m >= 10 {
        lemma_decimal_len(0, m / 10);
    }
}

/// Numbers that are padded to a width that holds them are equally long and sort like the numbers.
pub proof fn lemma_zero_padded_order(n: nat, m: nat, width: nat)
    requires
        n < m,
        decimal(m).len() <= width,
    ensures
        zero_padded(n, width).len() == width,
        zero_padded(m, width).len() == width,
        text_less(zero_padded(n, width), zero_padded(m, width)),
{
    lemma_decimal_len(n, m);
    lemma_zero_padded_digits(n, width);
    lemma_zero_padded_digits(m, width);
    lemma_last_digits_len(n, width);
    lemma_last_digits_len(m, width);
    lemma_last_digits_less(n, m, width);
}

} // verus!
