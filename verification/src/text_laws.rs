//! What holds of the operations on texts.

use vstd::prelude::*;

use crate::text;

verus! {

// ── Searching ────────────────────────────────────────────────────────────────

/// A text holds a pattern wherever that stands between what precedes and what follows it, and
/// only then: it can be taken apart around the pattern.
pub proof fn law_texts_hold_what_stands_in_them(
    before: Seq<char>,
    pattern: Seq<char>,
    after: Seq<char>,
    text: Seq<char>,
)
    ensures
        text::contains(before + pattern + after, pattern),
        text::contains(text, pattern) ==> exists|a: Seq<char>, b: Seq<char>|
            text == #[trigger] (a + pattern + b),
{
    let all = before + pattern + after;
    let at = before.len() as int;
    assert(all.subrange(at, at + pattern.len()) =~= pattern);
    assert(text::occurs_at(all, pattern, at));
    if text::contains(text, pattern) {
        let i = choose|i: int| text::occurs_at(text, pattern, i);
        let a = text.take(i);
        let b = text.skip(i + pattern.len());
        assert(text =~= a + pattern + b);
    }
}

/// A text begins with a prefix where the rest follows that, and only then.
pub proof fn law_prefixes_are_taken_off(prefix: Seq<char>, rest: Seq<char>, text: Seq<char>)
    ensures
        text::strip_prefix(prefix + rest, prefix) == Some(rest),
        text::strip_prefix(text, prefix) matches Some(tail) ==> text == prefix + tail,
{
    let all = prefix + rest;
    assert(all.subrange(0, prefix.len() as int) =~= prefix);
    assert(all.skip(prefix.len() as int) =~= rest);
    if text::starts_with(text, prefix) {
        assert(text =~= prefix + text.skip(prefix.len() as int));
    }
}

/// The first place of a pattern: the pattern stands there, and nowhere before; the last place: it
/// stands there, and nowhere behind.
pub proof fn law_first_and_last_places(text: Seq<char>, pattern: Seq<char>, other: int)
    requires
        0 <= other,
        other + pattern.len() <= text.len(),
        text.subrange(other, other + pattern.len()) == pattern,
    ensures
        text::find(text, pattern) matches Some(i) && 0 <= i <= other && text.subrange(
            i,
            i + pattern.len(),
        ) == pattern,
        text::rfind(text, pattern) matches Some(k) && other <= k <= text.len() - pattern.len()
            && text.subrange(k, k + pattern.len()) == pattern,
{
    assert(text::occurs_at(text, pattern, other));
    text::lemma_find(text, pattern);
    text::lemma_rfind_to(text, pattern, text.len() as int);
}

// ── White space and case ─────────────────────────────────────────────────────

/// The white space of Unicode: twenty-five characters, among them the space, the tabulator and
/// the line ends, and the spaces that are not broken at.
pub proof fn law_white_space_is_that_of_unicode(c: char)
    ensures
        text::is_whitespace(c) <==> {
            let code = c as int;
            9 <= code <= 13 || code == 32 || code == 133 || code == 160 || code == 5760 || 8192
                <= code <= 8202 || code == 8232 || code == 8233 || code == 8239 || code == 8287
                || code == 12288
        },
{
}

/// All characters of the text are white space.
pub open spec fn is_blank(text: Seq<char>) -> bool {
    forall|i: int| 0 <= i < text.len() ==> text::is_whitespace(#[trigger] text[i])
}

/// The text neither begins nor ends with white space.
pub open spec fn is_tight(text: Seq<char>) -> bool {
    text.len() > 0 ==> !text::is_whitespace(text[0]) && !text::is_whitespace(text.last())
}

proof fn lemma_trim_start(before: Seq<char>, rest: Seq<char>)
    requires
        is_blank(before),
        rest.len() > 0 ==> !text::is_whitespace(rest[0]),
    ensures
        text::trim_start(before + rest) == rest,
    decreases before.len(),
{
    let all = before + rest;
    if before.len() > 0 {
        assert(text::is_whitespace(before[0]));
        assert forall|i: int| 0 <= i < before.skip(1).len() implies text::is_whitespace(
            #[trigger] before.skip(1)[i],
        ) by {
            assert(text::is_whitespace(before[i + 1]));
        }
        assert(all.skip(1) =~= before.skip(1) + rest);
        lemma_trim_start(before.skip(1), rest);
    } else {
        assert(all =~= rest);
    }
}

proof fn lemma_trim_end(rest: Seq<char>, after: Seq<char>)
    requires
        is_blank(after),
        rest.len() > 0 ==> !text::is_whitespace(rest.last()),
    ensures
        text::trim_end(rest + after) == rest,
    decreases after.len(),
{
    let all = rest + after;
    if after.len() > 0 {
        assert(text::is_whitespace(after[after.len() - 1]));
        assert forall|i: int| 0 <= i < after.drop_last().len() implies text::is_whitespace(
            #[trigger] after.drop_last()[i],
        ) by {
            assert(text::is_whitespace(after[i]));
        }
        assert(all.drop_last() =~= rest + after.drop_last());
        lemma_trim_end(rest, after.drop_last());
    } else {
        assert(all =~= rest);
    }
}

/// White space at both ends is taken off, and nothing else.
pub proof fn law_white_space_at_the_ends_is_taken_off(
    before: Seq<char>,
    middle: Seq<char>,
    after: Seq<char>,
)
    requires
        is_blank(before),
        is_tight(middle),
        is_blank(after),
    ensures
        text::trim(before + middle + after) == middle,
{
    if middle.len() > 0 {
        assert(before + middle + after =~= before + (middle + after));
        assert((middle + after)[0] == middle[0]);
        lemma_trim_start(before, middle + after);
        lemma_trim_end(middle, after);
    } else {
        let all = before + after;
        assert(before + middle + after =~= all);
        assert forall|i: int| 0 <= i < all.len() implies text::is_whitespace(#[trigger] all[i]) by {
            if i < before.len() {
                assert(text::is_whitespace(before[i]));
            } else {
                assert(text::is_whitespace(after[i - before.len()]));
            }
        }
        let empty = Seq::<char>::empty();
        assert(all + empty =~= all);
        lemma_trim_start(all, empty);
        assert(middle =~= empty);
    }
}

proof fn lemma_trim_start_apart(text: Seq<char>) -> (before: Seq<char>)
    ensures
        is_blank(before),
        text == before + text::trim_start(text),
        text::trim_start(text).len() > 0 ==> !text::is_whitespace(text::trim_start(text)[0]),
    decreases text.len(),
{
    if text.len() > 0 && text::is_whitespace(text[0]) {
        let front = lemma_trim_start_apart(text.skip(1));
        let before = seq![text[0]] + front;
        assert(text =~= seq![text[0]] + text.skip(1));
        assert(text =~= seq![text[0]] + (front + text::trim_start(text.skip(1))));
        assert(text =~= before + text::trim_start(text));
        before
    } else {
        let before = Seq::<char>::empty();
        assert(text =~= before + text);
        before
    }
}

proof fn lemma_trim_end_apart(text: Seq<char>) -> (after: Seq<char>)
    ensures
        is_blank(after),
        text == text::trim_end(text) + after,
        text::trim_end(text).len() > 0 ==> !text::is_whitespace(text::trim_end(text).last()),
    decreases text.len(),
{
    if text.len() > 0 && text::is_whitespace(text.last()) {
        let front = lemma_trim_end_apart(text.drop_last());
        let after = front.push(text.last());
        assert(text =~= text.drop_last().push(text.last()));
        assert(text =~= (text::trim_end(text.drop_last()) + front).push(text.last()));
        assert(text =~= text::trim_end(text) + after);
        after
    } else {
        let after = Seq::<char>::empty();
        assert(text =~= text + after);
        after
    }
}

/// A text is what is left of it without the white space at its ends, between that white space.
pub proof fn law_a_trimmed_text_stands_between_white_space(text: Seq<char>) -> (ends: (
    Seq<char>,
    Seq<char>,
))
    ensures
        is_blank(ends.0),
        is_blank(ends.1),
        is_tight(text::trim(text)),
        text == ends.0 + text::trim(text) + ends.1,
{
    let before = lemma_trim_start_apart(text);
    let rest = text::trim_start(text);
    let after = lemma_trim_end_apart(rest);
    let middle = text::trim(text);
    assert(text =~= before + middle + after);
    if middle.len() > 0 {
        assert(rest[0] == middle[0]);
    }
    (before, after)
}

/// A capital letter of ASCII is made small, and no other character is changed: the two forms of a
/// letter come out the same.
pub proof fn law_letters_are_made_small(text: Seq<char>, i: int)
    requires
        0 <= i < text.len(),
    ensures
        text::ascii_lowercase(text).len() == text.len(),
        65 <= text[i] as int <= 90 ==> text::ascii_lowercase(text)[i] as int == text[i] as int + 32,
        !(65 <= text[i] as int <= 90) ==> text::ascii_lowercase(text)[i] == text[i],
{
}

// ── Putting together and taking apart ────────────────────────────────────────

proof fn lemma_terminated_concat(a: Seq<Seq<char>>, b: Seq<Seq<char>>, end: Seq<char>)
    ensures
        text::terminated(a + b, end) == text::terminated(a, end) + text::terminated(b, end),
    decreases b.len(),
{
    if b.len() == 0 {
        assert(a + b =~= a);
        assert(text::terminated(a, end) + text::terminated(b, end) =~= text::terminated(a, end));
    } else {
        lemma_terminated_concat(a, b.drop_last(), end);
        assert((a + b).drop_last() =~= a + b.drop_last());
        assert((a + b).last() == b.last());
        assert(text::terminated(a + b, end) =~= text::terminated(a, end) + text::terminated(b, end));
    }
}

/// A joined list is its one part, or what its two halves are joined to with the separator between
/// them: all parts stand in it, in their order, and the separator between neighbours.
pub proof fn law_parts_are_joined_in_order(
    part: Seq<char>,
    a: Seq<Seq<char>>,
    b: Seq<Seq<char>>,
    separator: Seq<char>,
)
    ensures
        text::join(Seq::empty(), separator) == Seq::<char>::empty(),
        text::join(seq![part], separator) == part,
        a.len() > 0 && b.len() > 0 ==> text::join(a + b, separator) == text::join(a, separator)
            + separator + text::join(b, separator),
{
    assert(seq![part].drop_last() =~= Seq::<Seq<char>>::empty());
    assert(text::join(seq![part], separator) =~= part);
    if a.len() > 0 && b.len() > 0 {
        assert((a + b).drop_last() =~= a + b.drop_last());
        lemma_terminated_concat(a, b.drop_last(), separator);
        assert(text::terminated(a, separator) =~= text::join(a, separator) + separator);
        assert(text::join(a + b, separator) =~= text::join(a, separator) + separator + text::join(
            b,
            separator,
        ));
    }
}

/// Each part is followed by the end mark, in the order of the parts.
pub proof fn law_parts_are_terminated_in_order(
    part: Seq<char>,
    a: Seq<Seq<char>>,
    b: Seq<Seq<char>>,
    end: Seq<char>,
)
    ensures
        text::terminated(Seq::empty(), end) == Seq::<char>::empty(),
        text::terminated(seq![part], end) == part + end,
        text::terminated(a + b, end) == text::terminated(a, end) + text::terminated(b, end),
{
    assert(seq![part].drop_last() =~= Seq::<Seq<char>>::empty());
    reveal_with_fuel(text::terminated, 2);
    assert(text::terminated(seq![part], end) =~= part + end);
    lemma_terminated_concat(a, b, end);
}

/// Characters are replaced one by one: a text is what its two halves are replaced by.
pub proof fn law_characters_are_replaced_one_by_one(
    a: Seq<char>,
    b: Seq<char>,
    c: char,
    image: spec_fn(char) -> Seq<char>,
)
    ensures
        text::expand(Seq::empty(), image) == Seq::<char>::empty(),
        text::expand(seq![c], image) == image(c),
        text::expand(a + b, image) == text::expand(a, image) + text::expand(b, image),
    decreases b.len(),
{
    assert(seq![c].drop_last() =~= Seq::<char>::empty());
    assert(text::expand(Seq::empty(), image) =~= Seq::<char>::empty());
    assert(text::expand(seq![c].drop_last(), image) =~= Seq::<char>::empty());
    assert(text::expand(seq![c], image) =~= image(c));
    if b.len() == 0 {
        assert(a + b =~= a);
        assert(text::expand(a, image) + text::expand(b, image) =~= text::expand(a, image));
    } else {
        law_characters_are_replaced_one_by_one(a, b.drop_last(), c, image);
        assert((a + b).drop_last() =~= a + b.drop_last());
        assert(text::expand(a + b, image) =~= text::expand(a, image) + text::expand(b, image));
    }
}

proof fn lemma_find_newline(line: Seq<char>, rest: Seq<char>)
    requires
        !line.contains('\n'),
    ensures
        text::find_from(line + seq!['\n'] + rest, seq!['\n'], 0) == Some(line.len() as int),
{
    let all = line + seq!['\n'] + rest;
    let at = line.len() as int;
    assert(all.subrange(at, at + 1) =~= seq!['\n']);
    assert(text::occurs_at(all, seq!['\n'], at));
    assert forall|j: int| j < at implies !#[trigger] text::occurs_at(all, seq!['\n'], j) by {
        if text::occurs_at(all, seq!['\n'], j) {
            assert(all.subrange(j, j + 1)[0] == '\n');
            assert(line[j] == '\n');
        }
    }
    text::lemma_find_is(all, seq!['\n'], at);
}

/// A line ends with a newline, or with a carriage return and a newline, and what follows are the
/// other lines; the last line may go without. No line end is part of a line.
pub proof fn law_lines_end_with_newlines(line: Seq<char>, rest: Seq<char>)
    requires
        !line.contains('\n'),
    ensures
        text::lines(Seq::empty()) == Seq::<Seq<char>>::empty(),
        line.len() > 0 ==> text::lines(line) == seq![line],
        line.len() == 0 || line.last() != '\r' ==> text::lines(line + seq!['\n'] + rest)
            == seq![line] + text::lines(rest),
        text::lines(line + seq!['\r', '\n'] + rest) == seq![line] + text::lines(rest),
{
    text::lemma_find_from(line, seq!['\n'], 0);
    if let Some(i) = text::find_from(line, seq!['\n'], 0) {
        assert(line.subrange(i, i + 1)[0] == '\n');
        assert(line[i] == '\n');
    }
    let all = line + seq!['\n'] + rest;
    lemma_find_newline(line, rest);
    assert(all.take(line.len() as int) =~= line);
    assert(all.skip(line.len() as int + 1) =~= rest);
    let longer = line.push('\r');
    let other = line + seq!['\r', '\n'] + rest;
    assert(other =~= longer + seq!['\n'] + rest);
    assert(!longer.contains('\n')) by {
        if longer.contains('\n') {
            let i = choose|i: int| 0 <= i < longer.len() && longer[i] == '\n';
            assert(line[i] == '\n');
        }
    }
    lemma_find_newline(longer, rest);
    assert(other.take(longer.len() as int) =~= longer);
    assert(other.skip(longer.len() as int + 1) =~= rest);
    assert(longer.drop_last() =~= line);
}

// ── Numbers ──────────────────────────────────────────────────────────────────

/// The number that some decimal digits stand for.
pub open spec fn number_of_digits(digits: Seq<char>) -> int
    decreases digits.len(),
{
    if digits.len() == 0 {
        0
    } else {
        10 * number_of_digits(digits.drop_last()) + (digits.last() as int - 48)
    }
}

/// All characters are decimal digits.
pub open spec fn are_digits(digits: Seq<char>) -> bool {
    forall|i: int| 0 <= i < digits.len() ==> '0' <= (#[trigger] digits[i]) <= '9'
}

/// A number is written in decimal digits that stand for it, without a zero in front unless it is
/// zero.
pub proof fn law_numbers_are_written_in_decimal(n: nat)
    ensures
        are_digits(text::decimal(n)),
        number_of_digits(text::decimal(n)) == n,
        text::decimal(n).len() > 0,
        n > 0 ==> text::decimal(n)[0] != '0',
        n == 0 ==> text::decimal(n).len() == 1,
    decreases n,
{
    let digits = text::decimal(n);
    if n >= 10 {
        law_numbers_are_written_in_decimal(n / 10);
        assert(digits.drop_last() =~= text::decimal(n / 10));
    } else {
        assert(digits.drop_last() =~= Seq::<char>::empty());
        assert(number_of_digits(Seq::empty()) == 0);
    }
}

proof fn lemma_leading_zeros(zeros: nat, digits: Seq<char>)
    ensures
        number_of_digits(Seq::new(zeros, |i: int| '0') + digits) == number_of_digits(digits),
    decreases zeros + digits.len(),
{
    let front = Seq::new(zeros, |i: int| '0');
    let all = front + digits;
    if digits.len() > 0 {
        lemma_leading_zeros(zeros, digits.drop_last());
        assert(all.drop_last() =~= front + digits.drop_last());
    } else if zeros > 0 {
        let fewer = (zeros - 1) as nat;
        lemma_leading_zeros(fewer, digits);
        assert(all.drop_last() =~= Seq::new(fewer, |i: int| '0') + digits);
    }
}

/// A padded number stands for the number, and has as many digits as the width says, or more where
/// it takes more.
pub proof fn law_padded_numbers_stand_for_the_number(n: nat, width: nat)
    ensures
        are_digits(text::zero_padded(n, width)),
        number_of_digits(text::zero_padded(n, width)) == n,
        text::zero_padded(n, width).len() == if text::decimal(n).len() < width {
            width
        } else {
            text::decimal(n).len()
        },
{
    law_numbers_are_written_in_decimal(n);
    let digits = text::decimal(n);
    if digits.len() < width {
        lemma_leading_zeros((width - digits.len()) as nat, digits);
    }
}

/// Texts are in the order of their first different characters, and a text comes before those that
/// it begins.
pub proof fn law_texts_are_ordered_by_their_first_difference(
    common: Seq<char>,
    x: char,
    y: char,
    a: Seq<char>,
    b: Seq<char>,
)
    ensures
        x < y ==> text::text_less(common.push(x) + a, common.push(y) + b),
        x < y ==> !text::text_less(common.push(y) + b, common.push(x) + a),
        text::text_less(common, common.push(x) + a),
        !text::text_less(common, common),
    decreases common.len(),
{
    if common.len() > 0 {
        let rest = common.skip(1);
        law_texts_are_ordered_by_their_first_difference(rest, x, y, a, b);
        assert((common.push(x) + a).skip(1) =~= rest.push(x) + a);
        assert((common.push(y) + b).skip(1) =~= rest.push(y) + b);
    }
}

} // verus!
