//! What holds of the cards of every note.

use vstd::prelude::*;

use crate::outline;
use crate::outline::{Block, Place};
use crate::parser;
use crate::parser::{CardModel, Content, Sides};
use crate::text;

verus! {

// ── Text ─────────────────────────────────────────────────────────────────────

/// A text without a comment mark is left as it is.
pub proof fn law_text_without_comments_is_kept(input: Seq<char>)
    requires
        !text::contains(input, "<!--"@),
    ensures
        parser::without_comments(input) == input,
{
    text::lemma_find(input, "<!--"@);
}

/// A comment that is not closed takes the rest of the text with it, and nothing else.
pub proof fn law_unclosed_comment_reaches_to_the_end(before: Seq<char>, after: Seq<char>)
    requires
        text::find(before + "<!--"@ + after, "<!--"@) == Some(before.len() as int),
        !text::contains(after, "-->"@),
    ensures
        parser::without_comments(before + "<!--"@ + after) == before,
{
    let input = before + "<!--"@ + after;
    reveal_strlit("<!--");
    assert(input.skip(before.len() as int + 4) == after);
    assert(input.take(before.len() as int) == before);
    text::lemma_find(after, "-->"@);
}

/// A text without blanks is left as it is.
pub proof fn law_text_without_blanks_is_kept(input: Seq<char>, next: nat)
    requires
        !text::contains(input, "{{"@),
    ensures
        parser::numbered_blanks(input, next) == input,
{
    text::lemma_find(input, "{{"@);
}

/// A text in which the first opening is never closed is left as it is.
pub proof fn law_unclosed_blank_is_kept(before: Seq<char>, after: Seq<char>, next: nat)
    requires
        text::find(before + "{{"@ + after, "{{"@) == Some(before.len() as int),
        !text::contains(after, "}}"@),
    ensures
        parser::numbered_blanks(before + "{{"@ + after, next) == before + "{{"@ + after,
{
    let input = before + "{{"@ + after;
    reveal_strlit("{{");
    assert(input.skip(before.len() as int + 2) == after);
    text::lemma_find(after, "}}"@);
}

/// The first blank of a text gets the number `next`, and the blanks after it go on from there.
pub proof fn law_blanks_are_numbered_in_order(
    before: Seq<char>,
    blank: Seq<char>,
    after: Seq<char>,
    next: nat,
)
    requires
        text::find(before + "{{"@ + blank + "}}"@ + after, "{{"@) == Some(before.len() as int),
        text::find(blank + "}}"@ + after, "}}"@) == Some(blank.len() as int),
    ensures
        parser::numbered_blanks(before + "{{"@ + blank + "}}"@ + after, next) == before + "{{c"@
            + text::decimal(next) + "::"@ + blank + "}}"@ + parser::numbered_blanks(after, next + 1),
{
    let input = before + "{{"@ + blank + "}}"@ + after;
    reveal_strlit("{{");
    reveal_strlit("}}");
    assert(input.take(before.len() as int) == before);
    assert(input.skip(before.len() as int + 2) == blank + "}}"@ + after);
    assert((blank + "}}"@ + after).take(blank.len() as int) == blank);
    assert((blank + "}}"@ + after).skip(blank.len() as int + 2) == after);
}

// ── Callouts ─────────────────────────────────────────────────────────────────

/// A body with a blank makes a cloze card of the whole body, whatever the title.
pub proof fn law_cloze_takes_priority(
    title: Option<Seq<char>>,
    other: Option<Seq<char>>,
    body: Seq<Seq<char>>,
)
    requires
        parser::has_cloze(body),
    ensures
        parser::content_of(title, body) == parser::content_of(other, body),
        parser::content_of(title, body) == Some(
            Content {
                kind: Sides::Cloze { text: parser::numbered_blanks(text::join(body, "\n"@), 1) },
                identity: text::join(body, "\n"@),
            },
        ),
{
}

/// Basic cards with the same title have the same identity, whatever their backs; so an edit of
/// the back keeps the card.
pub proof fn law_back_does_not_change_the_identity(
    front: Seq<char>,
    body: Seq<Seq<char>>,
    other: Seq<Seq<char>>,
)
    requires
        !parser::has_cloze(body),
        !parser::has_cloze(other),
    ensures
        parser::content_of(Some(front), body) matches Some(a) && parser::content_of(Some(front), other) matches Some(
            b,
        ) && a.identity == b.identity && parser::fingerprint_of(a.identity) == parser::fingerprint_of(front),
{
}

/// A basic card is identified by its front.
pub proof fn law_basic_cards_are_identified_by_their_front(
    title: Seq<char>,
    body: Seq<char>,
    deck_override: Option<Seq<char>>,
    i: int,
)
    requires
        0 <= i < parser::cards_of(title, body, deck_override).len(),
    ensures
        parser::cards_of(title, body, deck_override)[i].kind matches Sides::Basic { front, back }
            ==> parser::cards_of(title, body, deck_override)[i].fingerprint == parser::fingerprint_of(front),
{
    lemma_is_card(title, body, i);
}

/// A new heading of the second level clears the third, and one of the first level clears both.
pub proof fn law_headings_clear_lower_ones(place: Place, line: Seq<char>)
    ensures
        text::starts_with(line, "## "@) ==> outline::below(place, line).h3 is None && outline::below(place, line).h1
            == place.h1,
        text::starts_with(line, "# "@) ==> outline::below(place, line).h2 is None && outline::below(
            place,
            line,
        ).h3 is None,
{
    reveal_strlit("### ");
    reveal_strlit("## ");
    reveal_strlit("# ");
    if text::starts_with(line, "# "@) {
        assert("# "@[1] == line.subrange(0, 2)[1]);
    }
    if text::starts_with(line, "## "@) {
        assert("## "@[1] == line.subrange(0, 3)[1]);
        assert("## "@[2] == line.subrange(0, 3)[2]);
    }
    if text::starts_with(line, "### "@) {
        assert("### "@[1] == line.subrange(0, 4)[1]);
        assert("### "@[2] == line.subrange(0, 4)[2]);
    }
}

/// A deck in the front matter is the deck of every card of the note, and changes nothing else of
/// the cards.
pub proof fn law_front_matter_overrides_the_deck(
    title: Seq<char>,
    body: Seq<char>,
    deck: Seq<char>,
)
    ensures
        ({
            let cards = parser::cards_of(title, body, Some(deck));
            let usual = parser::cards_of(title, body, None);
            &&& cards.len() == usual.len()
            &&& forall|i: int|
                0 <= i < cards.len() ==> #[trigger] cards[i] == (CardModel { deck, ..usual[i] })
        }),
{
}

proof fn lemma_is_card(title: Seq<char>, body: Seq<char>, i: int)
    requires
        0 <= i < parser::callouts_of(title, body).len(),
    ensures
        outline::is_card(parser::callouts_of(title, body)[i]),
{
    let all = outline::blocks(text::lines(parser::without_comments(body)), outline::top(title));
    all.lemma_filter_pred(|block: Block| outline::is_card(block), i);
}

/// The callout types.
pub open spec fn is_callout_type(name: Seq<char>) -> bool {
    name == "card"@ || name == "tip"@ || name == "note"@ || name == "important"@ || name
        == "warning"@
}

proof fn lemma_blocks(lines: Seq<Seq<char>>, place: Place, i: int)
    requires
        0 <= i < outline::blocks(lines, place).len(),
    ensures
        is_callout_type(outline::blocks(lines, place)[i].callout_type),
        outline::blocks(lines, place)[i].title matches Some(t) ==> t.len() > 0,
    decreases lines.len(),
{
    if outline::is_heading(lines[0]) {
        lemma_blocks(lines.skip(1), outline::below(place, lines[0]), i);
    } else if parser::callout_of(lines[0]) is Some {
        let body = outline::body_of(lines.skip(1));
        outline::lemma_body_len(lines.skip(1));
        if i > 0 {
            lemma_blocks(lines.skip(1 + body.len() as int), place, i - 1);
        }
    } else {
        lemma_blocks(lines.skip(1), place, i);
    }
}

/// Every card of a note has one of the callout types, and a front that is not empty where it has
/// a front.
pub proof fn law_cards_are_well_formed(
    title: Seq<char>,
    body: Seq<char>,
    deck_override: Option<Seq<char>>,
    i: int,
)
    requires
        0 <= i < parser::cards_of(title, body, deck_override).len(),
    ensures
        is_callout_type(parser::cards_of(title, body, deck_override)[i].callout_type),
        parser::cards_of(title, body, deck_override)[i].kind matches Sides::Basic { front, back }
            ==> front.len() > 0,
{
    let lines = text::lines(parser::without_comments(body));
    let all = outline::blocks(lines, outline::top(title));
    let cards = parser::callouts_of(title, body);
    lemma_is_card(title, body, i);
    all.lemma_filter_contains_rev(|block: Block| outline::is_card(block), cards[i]);
    let j = choose|j: int| 0 <= j < all.len() && all[j] == cards[i];
    lemma_blocks(lines, outline::top(title), j);
}

// ── Callouts that make no card ───────────────────────────────────────────────

/// The line at position `i` is none of the body of a callout above it.
pub open spec fn stands_alone(lines: Seq<Seq<char>>, i: int) -> bool
    decreases lines.len(),
{
    if i <= 0 || lines.len() == 0 {
        i == 0
    } else if !outline::is_heading(lines[0]) && parser::callout_of(lines[0]) is Some {
        proof {
            outline::lemma_body_len(lines.skip(1));
        }
        let taken = 1 + outline::body_of(lines.skip(1)).len() as int;
        stands_alone(lines.skip(taken), i - taken)
    } else {
        stands_alone(lines.skip(1), i - 1)
    }
}

/// A callout stands at position `i`, and makes no card.
pub open spec fn is_malformed(lines: Seq<Seq<char>>, i: int) -> bool {
    &&& 0 <= i < lines.len()
    &&& stands_alone(lines, i)
    &&& parser::callout_of(lines[i]) matches Some(callout) && parser::content_of(
        parser::title_of(callout.rest),
        outline::body_of(lines.skip(i + 1)),
    ) is None
}

/// How many lines the callout at position `i` takes.
pub open spec fn callout_len(lines: Seq<Seq<char>>, i: int) -> int {
    outline::body_of(lines.skip(i + 1)).len() + 1int
}

/// The lines with `count` of them, from position `i` on, made empty.
pub open spec fn emptied(lines: Seq<Seq<char>>, i: int, count: int) -> Seq<Seq<char>> {
    Seq::new(
        lines.len(),
        |k: int|
            if i <= k < i + count {
                Seq::empty()
            } else {
                lines[k]
            },
    )
}

/// An empty line is no heading, opens no callout and is none of the body of one; a line that
/// opens a callout is quoted, and no heading.
proof fn lemma_lines(line: Seq<char>)
    ensures
        line.len() == 0 ==> !outline::is_heading(line) && parser::callout_of(line) is None
            && outline::quoted(line) is None,
        parser::callout_of(line) is Some ==> outline::quoted(line) is Some && !outline::is_heading(
            line,
        ),
{
    reveal_strlit("### ");
    reveal_strlit("## ");
    reveal_strlit("# ");
    reveal_strlit("> ");
    reveal_strlit(">");
    reveal_strlit("> [!CARD]");
    reveal_strlit("> [!TIP]");
    reveal_strlit("> [!NOTE]");
    reveal_strlit("> [!IMPORTANT]");
    reveal_strlit("> [!WARNING]");
    if let Some(callout) = parser::callout_of(line) {
        let mark = if text::starts_with(line, "> [!CARD]"@) {
            "> [!CARD]"@
        } else if text::starts_with(line, "> [!TIP]"@) {
            "> [!TIP]"@
        } else if text::starts_with(line, "> [!NOTE]"@) {
            "> [!NOTE]"@
        } else if text::starts_with(line, "> [!IMPORTANT]"@) {
            "> [!IMPORTANT]"@
        } else {
            "> [!WARNING]"@
        };
        assert(text::starts_with(line, mark));
        assert(line.subrange(0, mark.len() as int)[0] == '>');
        assert(line.subrange(0, mark.len() as int)[1] == ' ');
        assert(line.subrange(0, 2) =~= "> "@);
        assert(text::starts_with(line, "> "@));
        if text::starts_with(line, "### "@) {
            assert(line.subrange(0, 4)[0] == '#');
        }
        if text::starts_with(line, "## "@) {
            assert(line.subrange(0, 3)[0] == '#');
        }
        if text::starts_with(line, "# "@) {
            assert(line.subrange(0, 2)[0] == '#');
        }
    }
}

/// The body of a callout ends before a line that is not quoted.
proof fn lemma_body_ends(lines: Seq<Seq<char>>)
    ensures
        outline::body_of(lines).len() <= lines.len(),
        outline::body_of(lines).len() < lines.len() ==> outline::quoted(
            lines[outline::body_of(lines).len() as int],
        ) is None,
    decreases lines.len(),
{
    if lines.len() > 0 && outline::quoted(lines[0]) is Some {
        lemma_body_ends(lines.skip(1));
    }
}

/// Two lists of lines that agree up to the line that ends a body begin with the same body.
proof fn lemma_same_body(lines: Seq<Seq<char>>, other: Seq<Seq<char>>)
    requires
        outline::body_of(lines).len() < lines.len(),
        outline::body_of(lines).len() < other.len(),
        forall|k: int|
            0 <= k <= outline::body_of(lines).len() ==> #[trigger] lines[k] == other[k],
    ensures
        outline::body_of(other) == outline::body_of(lines),
    decreases lines.len(),
{
    assert(lines[0] == other[0]);
    if outline::quoted(lines[0]) is Some {
        let rest = lines.skip(1);
        assert forall|k: int| 0 <= k <= outline::body_of(rest).len() implies #[trigger] rest[k]
            == other.skip(1)[k] by {
            assert(lines[k + 1] == other[k + 1]);
        }
        lemma_same_body(rest, other.skip(1));
    }
}

/// Empty lines at the beginning hold no callout.
proof fn lemma_empty_lines(lines: Seq<Seq<char>>, place: Place, count: int)
    requires
        0 <= count <= lines.len(),
        forall|k: int| 0 <= k < count ==> (#[trigger] lines[k]).len() == 0,
    ensures
        outline::blocks(lines, place) == outline::blocks(lines.skip(count), place),
    decreases count,
{
    if count == 0 {
        assert(lines.skip(0) =~= lines);
    } else {
        lemma_lines(lines[0]);
        assert forall|k: int| 0 <= k < count - 1 implies (#[trigger] lines.skip(1)[k]).len()
            == 0 by {
            assert(lines[k + 1].len() == 0);
        }
        lemma_empty_lines(lines.skip(1), place, count - 1);
        assert(lines.skip(1).skip(count - 1) =~= lines.skip(count));
    }
}

/// Empty lines at the end hold no callout, and belong to none.
proof fn lemma_empty_end(lines: Seq<Seq<char>>, place: Place, kept: int)
    requires
        0 <= kept <= lines.len(),
        forall|k: int| kept <= k < lines.len() ==> (#[trigger] lines[k]).len() == 0,
    ensures
        outline::blocks(lines.take(kept), place) == outline::blocks(lines, place),
    decreases lines.len(),
{
    if kept == 0 {
        lemma_empty_lines(lines, place, lines.len() as int);
        assert(lines.skip(lines.len() as int) =~= lines.take(0));
    } else {
        let front = lines.take(kept);
        assert(front[0] == lines[0]);
        assert(front.skip(1) =~= lines.skip(1).take(kept - 1));
        lemma_empty_body(lines.skip(1), kept - 1);
        if outline::is_heading(lines[0]) {
            lemma_empty_end(lines.skip(1), outline::below(place, lines[0]), kept - 1);
        } else if parser::callout_of(lines[0]) is Some {
            let taken = 1 + outline::body_of(lines.skip(1)).len() as int;
            assert(front.skip(taken) =~= lines.skip(taken).take(kept - taken));
            lemma_empty_end(lines.skip(taken), place, kept - taken);
        } else {
            lemma_empty_end(lines.skip(1), place, kept - 1);
        }
    }
}

/// Empty lines at the end are none of a body.
proof fn lemma_empty_body(lines: Seq<Seq<char>>, kept: int)
    requires
        0 <= kept <= lines.len(),
        forall|k: int| kept <= k < lines.len() ==> (#[trigger] lines[k]).len() == 0,
    ensures
        outline::body_of(lines.take(kept)) == outline::body_of(lines),
        outline::body_of(lines).len() <= kept,
    decreases lines.len(),
{
    if kept == 0 {
        if lines.len() > 0 {
            lemma_lines(lines[0]);
        }
    } else {
        assert(lines.take(kept).skip(1) =~= lines.skip(1).take(kept - 1));
        lemma_empty_body(lines.skip(1), kept - 1);
    }
}

/// A callout that makes no card can be made empty without a change of the callouts that make
/// cards.
proof fn lemma_emptied(lines: Seq<Seq<char>>, place: Place, i: int)
    requires
        is_malformed(lines, i),
    ensures
        outline::card_blocks(
            outline::blocks(emptied(lines, i, callout_len(lines, i)), place),
        ) == outline::card_blocks(outline::blocks(lines, place)),
    decreases lines.len(),
{
    let count = callout_len(lines, i);
    let other = emptied(lines, i, count);
    let pred = |block: Block| outline::is_card(block);
    lemma_body_ends(lines.skip(i + 1));
    lemma_lines(lines[i]);
    if i == 0 {
        let all = outline::blocks(lines, place);
        let rest = outline::blocks(lines.skip(count), place);
        lemma_empty_lines(other, place, count);
        assert(other.skip(count) =~= lines.skip(count));
        assert(all == seq![all[0]] + rest);
        Seq::filter_distributes_over_add(seq![all[0]], rest, pred);
        reveal(Seq::filter);
        assert(seq![all[0]].drop_last().filter(pred) =~= Seq::<Block>::empty());
        assert(seq![all[0]].filter(pred) =~= Seq::<Block>::empty());
        assert(outline::card_blocks(all) =~= outline::card_blocks(rest));
    } else {
        assert(other[0] == lines[0]);
        if !outline::is_heading(lines[0]) && parser::callout_of(lines[0]) is Some {
            let body = outline::body_of(lines.skip(1));
            let taken = 1 + body.len() as int;
            let next = lines.skip(taken);
            lemma_body_ends(lines.skip(1));
            lemma_stands_inside(next, i - taken);
            assert(taken < i) by {
                if taken == i {
                    assert(lines.skip(1)[body.len() as int] == lines[i]);
                }
            }
            assert forall|k: int| 0 <= k <= body.len() implies #[trigger] lines.skip(1)[k]
                == other.skip(1)[k] by {}
            lemma_same_body(lines.skip(1), other.skip(1));
            assert(next.skip(i - taken + 1) =~= lines.skip(i + 1));
            assert(other.skip(taken) =~= emptied(next, i - taken, count));
            lemma_emptied(next, place, i - taken);
            let all = outline::blocks(lines, place);
            let block = all[0];
            let rest = outline::blocks(next, place);
            let other_rest = outline::blocks(other.skip(taken), place);
            assert(all == seq![block] + rest);
            assert(outline::blocks(other, place) == seq![block] + other_rest);
            Seq::filter_distributes_over_add(seq![block], rest, pred);
            Seq::filter_distributes_over_add(seq![block], other_rest, pred);
        } else {
            let next = lines.skip(1);
            assert(next.skip(i - 1 + 1) =~= lines.skip(i + 1));
            assert(other.skip(1) =~= emptied(next, i - 1, count));
            lemma_emptied(next, outline::below(place, lines[0]), i - 1);
            lemma_emptied(next, place, i - 1);
        }
    }
}

/// A line that stands alone is not one before the first.
proof fn lemma_stands_inside(lines: Seq<Seq<char>>, i: int)
    requires
        stands_alone(lines, i),
    ensures
        i >= 0,
{
}

/// A callout that makes no card changes nothing else: the cards of a note are the same when all
/// its lines are made empty, whether or not the note keeps its empty lines at the end. So it takes
/// no sort key, and its headings are not numbered for it.
pub proof fn law_malformed_callouts_change_nothing(
    title: Seq<char>,
    body: Seq<char>,
    other: Seq<char>,
    deck_override: Option<Seq<char>>,
    i: int,
    kept: int,
)
    requires
        is_malformed(text::lines(parser::without_comments(body)), i),
        ({
            let lines = text::lines(parser::without_comments(body));
            let without = emptied(lines, i, callout_len(lines, i));
            &&& 0 <= kept <= without.len()
            &&& forall|k: int| kept <= k < without.len() ==> (#[trigger] without[k]).len() == 0
            &&& text::lines(parser::without_comments(other)) == without.take(kept)
        }),
    ensures
        parser::cards_of(title, other, deck_override) == parser::cards_of(
            title,
            body,
            deck_override,
        ),
{
    let lines = text::lines(parser::without_comments(body));
    let without = emptied(lines, i, callout_len(lines, i));
    lemma_emptied(lines, outline::top(title), i);
    lemma_empty_end(without, outline::top(title), kept);
}

// ── Sort keys and heading numbers ────────────────────────────────────────────

/// The sort keys of a note are equally long and sort in the order of the cards.
pub proof fn law_sort_keys_follow_the_note(
    title: Seq<char>,
    body: Seq<char>,
    deck_override: Option<Seq<char>>,
    i: int,
    j: int,
)
    requires
        0 <= i < j < parser::cards_of(title, body, deck_override).len(),
    ensures
        ({
            let cards = parser::cards_of(title, body, deck_override);
            &&& cards[i].sort_key.len() == outline::width_for(cards.len())
            &&& cards[j].sort_key.len() == outline::width_for(cards.len())
            &&& text::text_less(cards[i].sort_key, cards[j].sort_key)
        }),
{
    let count = parser::cards_of(title, body, deck_override).len();
    text::lemma_decimal_len((j + 1) as nat, count);
    text::lemma_zero_padded_order((i + 1) as nat, (j + 1) as nat, outline::width_for(count));
}

proof fn lemma_max(numbers: Set<nat>) -> (max: nat)
    requires
        numbers.finite(),
        numbers.len() > 0,
    ensures
        numbers.contains(max),
        forall|n: nat| numbers.contains(n) ==> n <= max,
    decreases numbers.len(),
{
    let any = numbers.choose();
    let others = numbers.remove(any);
    if others.len() == 0 {
        assert forall|n: nat| numbers.contains(n) implies n <= any by {
            if n != any {
                assert(others.contains(n));
            }
        }
        any
    } else {
        let other = lemma_max(others);
        let max = if other > any {
            other
        } else {
            any
        };
        assert forall|n: nat| numbers.contains(n) implies n <= max by {
            if n != any {
                assert(others.contains(n));
            }
        }
        max
    }
}

/// One of the siblings has the given place.
pub open spec fn is_taken(numbers: Set<nat>, place: nat) -> bool {
    exists|n: nat| numbers.contains(n) && #[trigger] outline::order_among(numbers, n).ordinal == place
}

/// The places of siblings: from 1 to their number, in their order, with none left out.
proof fn lemma_places(numbers: Set<nat>)
    requires
        numbers.finite(),
    ensures
        forall|n: nat|
            numbers.contains(n) ==> 1 <= (#[trigger] outline::order_among(numbers, n)).ordinal
                <= numbers.len(),
        forall|n: nat, m: nat|
            numbers.contains(n) && numbers.contains(m) && n < m ==> (#[trigger] outline::order_among(
                numbers,
                n,
            )).ordinal < (#[trigger] outline::order_among(numbers, m)).ordinal,
        forall|place: nat| 1 <= place <= numbers.len() ==> #[trigger] is_taken(numbers, place),
    decreases numbers.len(),
{
    assert forall|n: nat| numbers.contains(n) implies 1 <= (#[trigger] outline::order_among(
        numbers,
        n,
    )).ordinal <= numbers.len() by {
        let part = outline::up_to(numbers, n);
        vstd::set_lib::lemma_len_subset(part, numbers);
        assert(part.contains(n));
        vstd::set_lib::lemma_len_subset(Set::<nat>::empty().insert(n), part);
    }
    assert forall|n: nat, m: nat|
        numbers.contains(n) && numbers.contains(m) && n < m implies (#[trigger] outline::order_among(
        numbers,
        n,
    )).ordinal < (#[trigger] outline::order_among(numbers, m)).ordinal by {
        let part = outline::up_to(numbers, n);
        let more = outline::up_to(numbers, m);
        vstd::set_lib::lemma_len_subset(more, numbers);
        vstd::set_lib::lemma_len_subset(part, numbers);
        assert(!part.contains(m));
        vstd::set_lib::lemma_len_subset(part.insert(m), more);
    }
    if numbers.len() > 0 {
        let max = lemma_max(numbers);
        let others = numbers.remove(max);
        lemma_places(others);
        assert forall|place: nat| 1 <= place <= numbers.len() implies #[trigger] is_taken(
            numbers,
            place,
        ) by {
            if place == numbers.len() {
                assert(outline::up_to(numbers, max) =~= numbers);
                assert(outline::order_among(numbers, max).ordinal == place);
            } else {
                assert(is_taken(others, place));
                let n = choose|n: nat|
                    others.contains(n) && #[trigger] outline::order_among(others, n).ordinal == place;
                assert(outline::up_to(others, n) =~= outline::up_to(numbers, n));
                assert(outline::order_among(numbers, n).ordinal == place);
            }
        }
    }
}

proof fn lemma_h2_numbers_finite(cards: Seq<Block>, section: nat)
    ensures
        outline::h2_numbers(cards, section).finite(),
    decreases cards.len(),
{
    let whole = outline::h2_numbers(cards, section);
    if cards.len() == 0 {
        assert(whole =~= Set::<nat>::empty());
    } else {
        let front = cards.drop_last();
        lemma_h2_numbers_finite(front, section);
        let last = outline::number_of(cards.last().place.h2);
        assert forall|n: nat| whole.contains(n) implies outline::h2_numbers(front, section).insert(
            last,
        ).contains(n) by {
            let i = choose|i: int| 0 <= i < cards.len() && outline::under_h2(#[trigger] cards[i], section, n);
            if i < front.len() {
                assert(outline::under_h2(front[i], section, n));
            }
        }
        vstd::set_lib::lemma_len_subset(whole, outline::h2_numbers(front, section).insert(last));
    }
}

proof fn lemma_h3_numbers_finite(cards: Seq<Block>, section: nat, parent: nat)
    ensures
        outline::h3_numbers(cards, section, parent).finite(),
    decreases cards.len(),
{
    let whole = outline::h3_numbers(cards, section, parent);
    if cards.len() == 0 {
        assert(whole =~= Set::<nat>::empty());
    } else {
        let front = cards.drop_last();
        lemma_h3_numbers_finite(front, section, parent);
        let last = outline::number_of(cards.last().place.h3);
        assert forall|n: nat| whole.contains(n) implies outline::h3_numbers(front, section, parent).insert(
            last,
        ).contains(n) by {
            let i = choose|i: int|
                0 <= i < cards.len() && outline::under_h3(#[trigger] cards[i], section, parent, n);
            if i < front.len() {
                assert(outline::under_h3(front[i], section, parent, n));
            }
        }
        vstd::set_lib::lemma_len_subset(whole, outline::h3_numbers(front, section, parent).insert(last));
    }
}

/// The places that `order_among` gives: from 1 to the number of siblings, in their order, with
/// none left out, and written equally long so that they sort like the places.
pub open spec fn numbered_without_gaps(numbers: Set<nat>) -> bool {
    &&& forall|n: nat|
        numbers.contains(n) ==> 1 <= (#[trigger] outline::order_among(numbers, n)).ordinal <= numbers.len()
    &&& forall|n: nat, m: nat|
        numbers.contains(n) && numbers.contains(m) && n < m ==> {
            let first = #[trigger] outline::order_among(numbers, n);
            let second = #[trigger] outline::order_among(numbers, m);
            &&& first.ordinal < second.ordinal
            &&& text::text_less(
                text::zero_padded(first.ordinal, first.width),
                text::zero_padded(second.ordinal, second.width),
            )
        }
    &&& forall|place: nat| 1 <= place <= numbers.len() ==> #[trigger] is_taken(numbers, place)
}

proof fn lemma_numbered_without_gaps(numbers: Set<nat>)
    requires
        numbers.finite(),
    ensures
        numbered_without_gaps(numbers),
{
    lemma_places(numbers);
    assert forall|n: nat, m: nat|
        numbers.contains(n) && numbers.contains(m) && n < m implies ({
        let first = #[trigger] outline::order_among(numbers, n);
        let second = #[trigger] outline::order_among(numbers, m);
        &&& first.ordinal < second.ordinal
        &&& text::text_less(
            text::zero_padded(first.ordinal, first.width),
            text::zero_padded(second.ordinal, second.width),
        )
    }) by {
        let first = outline::order_among(numbers, n);
        let second = outline::order_among(numbers, m);
        text::lemma_decimal_len(second.ordinal, numbers.len());
        text::lemma_zero_padded_order(first.ordinal, second.ordinal, outline::width_for(numbers.len()));
    }
}

/// The second-level headings of a section with cards below them are numbered from 1 on, in their
/// order and without gaps, and so are the third-level headings under one parent. Headings without
/// cards take no number.
pub proof fn law_headings_are_numbered_without_gaps(
    cards: Seq<Block>,
    section: nat,
    parent: nat,
)
    ensures
        numbered_without_gaps(outline::h2_numbers(cards, section)),
        numbered_without_gaps(outline::h3_numbers(cards, section, parent)),
{
    lemma_h2_numbers_finite(cards, section);
    lemma_numbered_without_gaps(outline::h2_numbers(cards, section));
    lemma_h3_numbers_finite(cards, section, parent);
    lemma_numbered_without_gaps(outline::h3_numbers(cards, section, parent));
}

} // verus!
