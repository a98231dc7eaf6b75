//! What holds of the decks of every note: how the headings above a card name its deck, and which
//! headings are counted for it.

use vstd::prelude::*;

use crate::outline;
use crate::outline::{Block, Place};
use crate::parser;
use crate::text;
use crate::text_laws;

verus! {

// ── Headings ─────────────────────────────────────────────────────────────────

/// The marks of headings, of lines that are marked with them, and of quoted lines.
proof fn lemma_marks(line: Seq<char>, title: Seq<char>)
    ensures
        text::strip_prefix(seq!['#', ' '] + title, "# "@) == Some(title),
        text::strip_prefix(seq!['#', ' '] + title, "## "@) is None,
        text::strip_prefix(seq!['#', ' '] + title, "### "@) is None,
        text::strip_prefix(seq!['#', '#', ' '] + title, "## "@) == Some(title),
        text::strip_prefix(seq!['#', '#', ' '] + title, "### "@) is None,
        text::strip_prefix(seq!['#', '#', '#', ' '] + title, "### "@) == Some(title),
        text::starts_with(line, "# "@) ==> line == seq!['#', ' '] + line.skip(2),
        outline::is_heading(line) ==> outline::quoted(line) is None && line[0] == '#',
        outline::quoted(line) is Some ==> line[0] == '>' && !outline::is_heading(line),
{
    reveal_strlit("# ");
    reveal_strlit("## ");
    reveal_strlit("### ");
    reveal_strlit("> ");
    reveal_strlit(">");
    assert("# "@ =~= seq!['#', ' ']);
    assert("## "@ =~= seq!['#', '#', ' ']);
    assert("### "@ =~= seq!['#', '#', '#', ' ']);
    text_laws::law_prefixes_are_taken_off("# "@, title, line);
    text_laws::law_prefixes_are_taken_off("## "@, title, line);
    text_laws::law_prefixes_are_taken_off("### "@, title, line);
    let first = seq!['#', ' '] + title;
    let second = seq!['#', '#', ' '] + title;
    if text::starts_with(first, "## "@) {
        assert(first.subrange(0, 3)[1] == '#');
    }
    if text::starts_with(first, "### "@) {
        assert(first.subrange(0, 4)[1] == '#');
    }
    if text::starts_with(second, "### "@) {
        assert(second.subrange(0, 4)[2] == '#');
    }
    if text::starts_with(line, "# "@) {
        assert(line.subrange(0, 2)[0] == '#' && line.subrange(0, 2)[1] == ' ');
        assert(line =~= seq!['#', ' '] + line.skip(2));
    }
    if text::starts_with(line, "## "@) {
        assert(line.subrange(0, 3)[0] == '#');
    }
    if text::starts_with(line, "### "@) {
        assert(line.subrange(0, 4)[0] == '#');
    }
    if text::starts_with(line, "> "@) {
        assert(line.subrange(0, 2)[0] == '>');
    }
}

/// A line with a mark of the first level takes a place to a section that no line before it has,
/// below the heading alone. One with a mark of the second level keeps the section, and is numbered
/// behind the heading of that level above it; one of the third keeps the heading of the second
/// too. Titles stand without the white space at their ends. No other line changes the place.
pub proof fn law_headings_lead_to_new_places(
    place: Place,
    title: Seq<char>,
    before: Seq<char>,
    after: Seq<char>,
    line: Seq<char>,
)
    requires
        text_laws::is_blank(before),
        text_laws::is_tight(title),
        text_laws::is_blank(after),
        line.len() == 0 || line[0] != '#',
    ensures
        ({
            let rest = before + title + after;
            let first = outline::below(place, seq!['#', ' '] + rest);
            let second = outline::below(place, seq!['#', '#', ' '] + rest);
            let third = outline::below(place, seq!['#', '#', '#', ' '] + rest);
            &&& first.section > place.section && first.section == place.section + 1
            &&& first.h1 == title && first.h2 is None && first.h3 is None
            &&& second.section == place.section && second.h1 == place.h1 && second.h3 is None
            &&& second.h2 matches Some(h) && h.title == title && h.number == (match place.h2 {
                Some(above) => above.number + 1,
                None => 1,
            })
            &&& third.section == place.section && third.h1 == place.h1 && third.h2 == place.h2
            &&& third.h3 matches Some(h) && h.title == title && h.number == (match place.h3 {
                Some(above) => above.number + 1,
                None => 1,
            })
            &&& outline::below(place, line) == place
        }),
{
    let rest = before + title + after;
    lemma_marks(line, rest);
    text_laws::law_white_space_at_the_ends_is_taken_off(before, title, after);
    if outline::is_heading(line) {
        reveal_strlit("# ");
        reveal_strlit("## ");
        reveal_strlit("### ");
        assert(line.len() > 0);
    }
}

// ── Sections ─────────────────────────────────────────────────────────────────

/// The place below some lines, the first of which stands at `place`.
spec fn foot(lines: Seq<Seq<char>>, place: Place) -> Place
    decreases lines.len(),
{
    if lines.len() == 0 {
        place
    } else {
        foot(lines.skip(1), outline::below(place, lines[0]))
    }
}

/// The lines of a body are no headings.
proof fn lemma_body_foot(lines: Seq<Seq<char>>, place: Place)
    ensures
        outline::body_of(lines).len() <= lines.len(),
        foot(lines, place) == foot(lines.skip(outline::body_of(lines).len() as int), place),
    decreases lines.len(),
{
    if lines.len() > 0 && outline::quoted(lines[0]) is Some {
        lemma_marks(lines[0], Seq::empty());
        lemma_body_foot(lines.skip(1), place);
        let inner = outline::body_of(lines.skip(1)).len() as int;
        assert(lines.skip(1).skip(inner) =~= lines.skip(inner + 1));
    } else {
        assert(lines.skip(0) =~= lines);
    }
}

/// A line that is not quoted ends a body.
proof fn lemma_body_ends(a: Seq<Seq<char>>, b: Seq<Seq<char>>)
    requires
        b.len() > 0 ==> outline::quoted(b[0]) is None,
    ensures
        outline::body_of(a + b) == outline::body_of(a),
    decreases a.len(),
{
    if a.len() > 0 {
        lemma_body_ends(a.skip(1), b);
        assert((a + b).skip(1) =~= a.skip(1) + b);
    } else {
        assert(a + b =~= b);
    }
}

/// A callout opens with a quoted line, so it is no heading.
proof fn lemma_callout_line(line: Seq<char>)
    ensures
        parser::callout_of(line) is Some ==> outline::quoted(line) is Some
            && !outline::is_heading(line),
{
    reveal_strlit("> [!CARD]");
    reveal_strlit("> [!TIP]");
    reveal_strlit("> [!NOTE]");
    reveal_strlit("> [!IMPORTANT]");
    reveal_strlit("> [!WARNING]");
    reveal_strlit("> ");
    lemma_marks(line, Seq::empty());
    if parser::callout_of(line) is Some {
        assert(line.len() >= 2);
        let n: int = if text::starts_with(line, "> [!CARD]"@) {
            9
        } else if text::starts_with(line, "> [!TIP]"@) {
            8
        } else if text::starts_with(line, "> [!NOTE]"@) {
            9
        } else if text::starts_with(line, "> [!IMPORTANT]"@) {
            14
        } else {
            12
        };
        assert(line.subrange(0, n)[0] == '>' && line.subrange(0, n)[1] == ' ');
        assert(line.subrange(0, 2) =~= "> "@);
    }
}

/// Lines behind a line that is not quoted make the callouts that they make at the place below the
/// lines before them.
proof fn lemma_blocks_apart(a: Seq<Seq<char>>, b: Seq<Seq<char>>, place: Place)
    requires
        b.len() > 0 ==> outline::quoted(b[0]) is None,
    ensures
        outline::blocks(a + b, place) == outline::blocks(a, place) + outline::blocks(
            b,
            foot(a, place),
        ),
    decreases a.len(),
{
    let all = a + b;
    if a.len() == 0 {
        assert(all =~= b);
        assert(outline::blocks(a, place) =~= Seq::<Block>::empty());
    } else {
        assert(all[0] == a[0]);
        assert(all.skip(1) =~= a.skip(1) + b);
        lemma_callout_line(a[0]);
        lemma_marks(a[0], Seq::empty());
        if outline::is_heading(a[0]) {
            lemma_blocks_apart(a.skip(1), b, outline::below(place, a[0]));
        } else if parser::callout_of(a[0]) is Some {
            let taken = outline::body_of(a.skip(1)).len() as int;
            lemma_body_ends(a.skip(1), b);
            lemma_body_foot(a.skip(1), place);
            assert(all.skip(1 + taken) =~= a.skip(1 + taken) + b);
            assert(a.skip(1).skip(taken) =~= a.skip(1 + taken));
            lemma_blocks_apart(a.skip(1 + taken), b, place);
            assert(outline::below(place, a[0]) == place);
            assert(outline::blocks(all, place) =~= outline::blocks(a, place) + outline::blocks(
                b,
                foot(a, place),
            ));
        } else {
            assert(outline::below(place, a[0]) == place);
            lemma_blocks_apart(a.skip(1), b, place);
        }
    }
}

/// The section does not fall from line to line.
proof fn lemma_sections_rise(lines: Seq<Seq<char>>, place: Place)
    ensures
        place.section <= foot(lines, place).section,
        forall|i: int|
            0 <= i < outline::blocks(lines, place).len() ==> place.section <= (
            #[trigger] outline::blocks(lines, place)[i]).place.section <= foot(
                lines,
                place,
            ).section,
    decreases lines.len(),
{
    if lines.len() > 0 {
        let next = outline::below(place, lines[0]);
        assert(place.section <= next.section);
        lemma_callout_line(lines[0]);
        lemma_sections_rise(lines.skip(1), next);
        if !outline::is_heading(lines[0]) {
            assert(next == place);
            if parser::callout_of(lines[0]) is Some {
                let taken = outline::body_of(lines.skip(1)).len() as int;
                lemma_body_foot(lines.skip(1), place);
                assert(lines.skip(1).skip(taken) =~= lines.skip(1 + taken));
                lemma_sections_rise(lines.skip(1 + taken), place);
                let rest = outline::blocks(lines.skip(1 + taken), place);
                assert forall|i: int| 0 <= i < outline::blocks(lines, place).len() implies
                    place.section <= (#[trigger] outline::blocks(lines, place)[i]).place.section
                    <= foot(lines, place).section by {
                    if i > 0 {
                        assert(outline::blocks(lines, place)[i] == rest[i - 1]);
                    }
                }
            }
        }
    }
}

/// The place `by` sections further on.
spec fn moved(place: Place, by: nat) -> Place {
    Place { section: place.section + by, ..place }
}

/// The same callouts, `by` sections further on.
spec fn are_moved(list: Seq<Block>, others: Seq<Block>, by: nat) -> bool {
    &&& list.len() == others.len()
    &&& forall|i: int|
        0 <= i < list.len() ==> (#[trigger] others[i]) == (Block {
            place: moved(list[i].place, by),
            ..list[i]
        })
}

/// The same lines make the same callouts, at places as far apart as those where they begin.
proof fn lemma_moved_blocks(lines: Seq<Seq<char>>, place: Place, by: nat)
    ensures
        are_moved(
            outline::blocks(lines, place),
            outline::blocks(lines, moved(place, by)),
            by,
        ),
    decreases lines.len(),
{
    if lines.len() > 0 {
        if outline::is_heading(lines[0]) {
            assert(outline::below(moved(place, by), lines[0]) == moved(
                outline::below(place, lines[0]),
                by,
            ));
            lemma_moved_blocks(lines.skip(1), outline::below(place, lines[0]), by);
        } else if parser::callout_of(lines[0]) is Some {
            let taken = outline::body_of(lines.skip(1)).len() as int;
            outline::lemma_body_len(lines.skip(1));
            lemma_moved_blocks(lines.skip(1 + taken), place, by);
            let list = outline::blocks(lines, place);
            let others = outline::blocks(lines, moved(place, by));
            let rest = outline::blocks(lines.skip(1 + taken), place);
            let other_rest = outline::blocks(lines.skip(1 + taken), moved(place, by));
            assert forall|i: int| 0 <= i < list.len() implies (#[trigger] others[i]) == (Block {
                place: moved(list[i].place, by),
                ..list[i]
            }) by {
                if i > 0 {
                    assert(others[i] == other_rest[i - 1]);
                    assert(list[i] == rest[i - 1]);
                }
            }
        } else {
            lemma_moved_blocks(lines.skip(1), place, by);
        }
    }
}

/// The cards among them are the same too.
proof fn lemma_moved_cards(list: Seq<Block>, others: Seq<Block>, by: nat)
    requires
        are_moved(list, others, by),
    ensures
        are_moved(outline::card_blocks(list), outline::card_blocks(others), by),
    decreases list.len(),
{
    reveal(Seq::filter);
    if list.len() > 0 {
        lemma_moved_cards(list.drop_last(), others.drop_last(), by);
        assert(others.last() == others[list.len() - 1]);
        assert(outline::is_card(list.last()) == outline::is_card(others.last()));
    }
}

/// The cards of a list are among its callouts.
proof fn lemma_card_is_block(all: Seq<Block>, i: int)
    requires
        0 <= i < outline::card_blocks(all).len(),
    ensures
        all.contains(outline::card_blocks(all)[i]),
{
    let pred = |block: Block| outline::is_card(block);
    assert(all.filter(pred).contains(all.filter(pred)[i]));
    all.lemma_filter_contains_rev(pred, all.filter(pred)[i]);
}

/// Cards of other sections do not count for a heading.
proof fn lemma_numbers_apart(a: Seq<Block>, b: Seq<Block>, section: nat, parent: nat)
    ensures
        (forall|i: int| 0 <= i < a.len() ==> (#[trigger] a[i]).place.section != section)
            ==> outline::h2_numbers(a + b, section) == outline::h2_numbers(b, section)
            && outline::h3_numbers(a + b, section, parent) == outline::h3_numbers(
            b,
            section,
            parent,
        ),
        (forall|i: int| 0 <= i < b.len() ==> (#[trigger] b[i]).place.section != section)
            ==> outline::h2_numbers(a + b, section) == outline::h2_numbers(a, section)
            && outline::h3_numbers(a + b, section, parent) == outline::h3_numbers(
            a,
            section,
            parent,
        ),
{
    let all = a + b;
    assert forall|i: int| 0 <= i < a.len() implies all[i] == #[trigger] a[i] by {}
    assert forall|i: int| 0 <= i < b.len() implies all[a.len() + i] == #[trigger] b[i] by {}
    if forall|i: int| 0 <= i < a.len() ==> (#[trigger] a[i]).place.section != section {
        assert(outline::h2_numbers(all, section) =~= outline::h2_numbers(b, section)) by {
            assert forall|n: nat| outline::h2_numbers(all, section).contains(n) implies
                outline::h2_numbers(b, section).contains(n) by {
                let i = choose|i: int|
                    0 <= i < all.len() && outline::under_h2(#[trigger] all[i], section, n);
                if i < a.len() {
                    assert(all[i] == a[i]);
                }
                assert(all[i] == b[i - a.len()]);
            }
            assert forall|n: nat| outline::h2_numbers(b, section).contains(n) implies
                outline::h2_numbers(all, section).contains(n) by {
                let i = choose|i: int|
                    0 <= i < b.len() && outline::under_h2(#[trigger] b[i], section, n);
                assert(all[a.len() + i] == b[i]);
            }
        }
        assert(outline::h3_numbers(all, section, parent) =~= outline::h3_numbers(
            b,
            section,
            parent,
        )) by {
            assert forall|n: nat| outline::h3_numbers(all, section, parent).contains(n) implies
                outline::h3_numbers(b, section, parent).contains(n) by {
                let i = choose|i: int|
                    0 <= i < all.len() && outline::under_h3(#[trigger] all[i], section, parent, n);
                if i < a.len() {
                    assert(all[i] == a[i]);
                }
                assert(all[i] == b[i - a.len()]);
            }
            assert forall|n: nat| outline::h3_numbers(b, section, parent).contains(n) implies
                outline::h3_numbers(all, section, parent).contains(n) by {
                let i = choose|i: int|
                    0 <= i < b.len() && outline::under_h3(#[trigger] b[i], section, parent, n);
                assert(all[a.len() + i] == b[i]);
            }
        }
    }
    if forall|i: int| 0 <= i < b.len() ==> (#[trigger] b[i]).place.section != section {
        assert(outline::h2_numbers(all, section) =~= outline::h2_numbers(a, section)) by {
            assert forall|n: nat| outline::h2_numbers(all, section).contains(n) implies
                outline::h2_numbers(a, section).contains(n) by {
                let i = choose|i: int|
                    0 <= i < all.len() && outline::under_h2(#[trigger] all[i], section, n);
                if i >= a.len() {
                    assert(all[i] == b[i - a.len()]);
                }
                assert(all[i] == a[i]);
            }
            assert forall|n: nat| outline::h2_numbers(a, section).contains(n) implies
                outline::h2_numbers(all, section).contains(n) by {
                let i = choose|i: int|
                    0 <= i < a.len() && outline::under_h2(#[trigger] a[i], section, n);
                assert(all[i] == a[i]);
            }
        }
        assert(outline::h3_numbers(all, section, parent) =~= outline::h3_numbers(
            a,
            section,
            parent,
        )) by {
            assert forall|n: nat| outline::h3_numbers(all, section, parent).contains(n) implies
                outline::h3_numbers(a, section, parent).contains(n) by {
                let i = choose|i: int|
                    0 <= i < all.len() && outline::under_h3(#[trigger] all[i], section, parent, n);
                if i >= a.len() {
                    assert(all[i] == b[i - a.len()]);
                }
                assert(all[i] == a[i]);
            }
            assert forall|n: nat| outline::h3_numbers(a, section, parent).contains(n) implies
                outline::h3_numbers(all, section, parent).contains(n) by {
                let i = choose|i: int|
                    0 <= i < a.len() && outline::under_h3(#[trigger] a[i], section, parent, n);
                assert(all[i] == a[i]);
            }
        }
    }
}

/// Cards further on count for the headings further on.
proof fn lemma_moved_numbers(
    list: Seq<Block>,
    others: Seq<Block>,
    by: nat,
    section: nat,
    parent: nat,
)
    requires
        are_moved(list, others, by),
    ensures
        outline::h2_numbers(others, section + by) == outline::h2_numbers(list, section),
        outline::h3_numbers(others, section + by, parent) == outline::h3_numbers(
            list,
            section,
            parent,
        ),
{
    assert(outline::h2_numbers(others, section + by) =~= outline::h2_numbers(list, section)) by {
        assert forall|n: nat| outline::h2_numbers(others, section + by).contains(n) implies
            outline::h2_numbers(list, section).contains(n) by {
            let i = choose|i: int|
                0 <= i < others.len() && outline::under_h2(#[trigger] others[i], section + by, n);
            assert(outline::under_h2(list[i], section, n));
        }
        assert forall|n: nat| outline::h2_numbers(list, section).contains(n) implies
            outline::h2_numbers(others, section + by).contains(n) by {
            let i = choose|i: int|
                0 <= i < list.len() && outline::under_h2(#[trigger] list[i], section, n);
            assert(outline::under_h2(others[i], section + by, n));
        }
    }
    assert(outline::h3_numbers(others, section + by, parent) =~= outline::h3_numbers(
        list,
        section,
        parent,
    )) by {
        assert forall|n: nat| outline::h3_numbers(others, section + by, parent).contains(n) implies
            outline::h3_numbers(list, section, parent).contains(n) by {
            let i = choose|i: int|
                0 <= i < others.len() && outline::under_h3(
                    #[trigger] others[i],
                    section + by,
                    parent,
                    n,
                );
            assert(outline::under_h3(list[i], section, parent, n));
        }
        assert forall|n: nat| outline::h3_numbers(list, section, parent).contains(n) implies
            outline::h3_numbers(others, section + by, parent).contains(n) by {
            let i = choose|i: int|
                0 <= i < list.len() && outline::under_h3(#[trigger] list[i], section, parent, n);
            assert(outline::under_h3(others[i], section + by, parent, n));
        }
    }
}

/// The callouts of a note whose lines are parted by a heading of the first level.
proof fn lemma_parted_callouts(
    title: Seq<char>,
    other: Seq<char>,
    a: Seq<Seq<char>>,
    b: Seq<Seq<char>>,
) -> (by: nat)
    requires
        b.len() > 0,
        text::starts_with(b[0], "# "@),
    ensures
        ({
            let all = outline::card_blocks(outline::blocks(a + b, outline::top(title)));
            let first = outline::card_blocks(outline::blocks(a, outline::top(title)));
            let alone = outline::card_blocks(outline::blocks(b, outline::top(other)));
            &&& first.len() + alone.len() == all.len()
            &&& all.take(first.len() as int) == first
            &&& are_moved(alone, all.skip(first.len() as int), by)
            &&& forall|i: int| 0 <= i < first.len() ==> (#[trigger] first[i]).place.section <= by
            &&& forall|i: int| 0 <= i < alone.len() ==> (#[trigger] alone[i]).place.section >= 1
        }),
{
    let top = outline::top(title);
    let other_top = outline::top(other);
    let end = foot(a, top);
    let by = end.section;
    lemma_marks(b[0], b[0].skip(2));
    lemma_blocks_apart(a, b, top);
    let blocks_a = outline::blocks(a, top);
    let blocks_b = outline::blocks(b, end);
    let alone_b = outline::blocks(b, other_top);
    let first = outline::card_blocks(blocks_a);
    let second = outline::card_blocks(blocks_b);
    let alone = outline::card_blocks(alone_b);
    Seq::filter_distributes_over_add(blocks_a, blocks_b, |block: Block| outline::is_card(block));
    assert(outline::card_blocks(outline::blocks(a + b, top)) == first + second);
    assert((first + second).take(first.len() as int) =~= first);
    assert((first + second).skip(first.len() as int) =~= second);
    let start = outline::below(other_top, b[0]);
    assert(outline::below(end, b[0]) == moved(start, by));
    assert(outline::is_heading(b[0]));
    lemma_moved_blocks(b.skip(1), start, by);
    assert(are_moved(alone_b, blocks_b, by));
    lemma_moved_cards(alone_b, blocks_b, by);
    lemma_sections_rise(a, top);
    lemma_sections_rise(b.skip(1), start);
    assert forall|i: int| 0 <= i < first.len() implies (#[trigger] first[i]).place.section
        <= by by {
        lemma_card_is_block(blocks_a, i);
    }
    assert forall|i: int| 0 <= i < alone.len() implies (#[trigger] alone[i]).place.section
        >= 1 by {
        lemma_card_is_block(alone_b, i);
    }
    by
}

/// The callouts in some lines of a note that make cards.
pub open spec fn callouts_in(title: Seq<char>, lines: Seq<Seq<char>>) -> Seq<Block> {
    outline::card_blocks(outline::blocks(lines, outline::top(title)))
}

/// What stands below one heading of the first level does not depend on what stands below
/// another: where `b` begins with such a heading, the cards that the lines `a + b` make in `b` have
/// the decks, and all but their sort keys, that they have where the lines are `b` alone, whatever
/// the title of the note. And those in `a` have the decks that they have without `b`.
pub proof fn law_first_level_headings_part_the_lines(
    title: Seq<char>,
    other: Seq<char>,
    a: Seq<Seq<char>>,
    b: Seq<Seq<char>>,
    i: int,
)
    requires
        b.len() > 0,
        text::starts_with(b[0], "# "@),
        0 <= i < callouts_in(title, a + b).len(),
    ensures
        ({
            let first = callouts_in(title, a);
            let alone = callouts_in(other, b);
            let card = parser::card_at(callouts_in(title, a + b), i, None);
            let same = if i < first.len() {
                parser::card_at(first, i, None)
            } else {
                parser::card_at(alone, i - first.len(), None)
            };
            &&& callouts_in(title, a + b).len() == first.len() + alone.len()
            &&& card.deck == same.deck
            &&& card.context == same.context
            &&& card.kind == same.kind
            &&& card.fingerprint == same.fingerprint
            &&& card.callout_type == same.callout_type
        }),
{
    let by = lemma_parted_callouts(title, other, a, b);
    let all = callouts_in(title, a + b);
    let first = callouts_in(title, a);
    let alone = callouts_in(other, b);
    let second = all.skip(first.len() as int);
    assert(all =~= first + second);
    if i < first.len() {
        let place = first[i].place;
        assert(all[i] == first[i]);
        assert forall|j: int| 0 <= j < second.len() implies (#[trigger] second[j]).place.section
            != place.section by {
            assert(alone[j].place.section >= 1);
        }
        lemma_numbers_apart(first, second, place.section, outline::number_of(place.h2));
    } else {
        let j = i - first.len();
        let place = alone[j].place;
        assert(all[i] == second[j]);
        assert(second[j].place == moved(place, by));
        assert forall|k: int| 0 <= k < first.len() implies (#[trigger] first[k]).place.section
            != place.section + by by {
            assert(alone[j].place.section >= 1);
        }
        lemma_numbers_apart(first, second, place.section + by, outline::number_of(place.h2));
        lemma_moved_numbers(alone, second, by, place.section, outline::number_of(place.h2));
    }
}

/// A heading of the first level parts a note: the cards below it are those of a note that begins
/// with it, with the same decks, and the cards above it are those of the note that ends before it.
pub proof fn law_first_level_headings_part_a_note(
    title: Seq<char>,
    body: Seq<char>,
    first_body: Seq<char>,
    other: Seq<char>,
    part: Seq<char>,
    a: Seq<Seq<char>>,
    b: Seq<Seq<char>>,
    i: int,
)
    requires
        text::lines(parser::without_comments(body)) == a + b,
        text::lines(parser::without_comments(first_body)) == a,
        text::lines(parser::without_comments(part)) == b,
        b.len() > 0,
        text::starts_with(b[0], "# "@),
        0 <= i < parser::cards_of(title, body, None).len(),
    ensures
        ({
            let all = parser::cards_of(title, body, None);
            let first = parser::cards_of(title, first_body, None);
            let alone = parser::cards_of(other, part, None);
            let card = all[i];
            &&& all.len() == first.len() + alone.len()
            &&& i < first.len() ==> card.deck == first[i].deck && card.kind == first[i].kind
                && card.fingerprint == first[i].fingerprint && card.callout_type
                == first[i].callout_type && card.context == first[i].context
            &&& i >= first.len() ==> {
                let same = alone[i - first.len()];
                card.deck == same.deck && card.kind == same.kind && card.fingerprint
                    == same.fingerprint && card.callout_type == same.callout_type && card.context
                    == same.context
            }
        }),
{
    law_first_level_headings_part_the_lines(title, other, a, b, i);
}

/// Without headings all cards of a note go to the deck that is named like the note, and show no
/// headings.
pub proof fn law_notes_without_headings_are_one_deck(
    before: Seq<char>,
    title: Seq<char>,
    after: Seq<char>,
    body: Seq<char>,
    i: int,
)
    requires
        text_laws::is_blank(before),
        text_laws::is_tight(title),
        text_laws::is_blank(after),
        forall|k: int|
            0 <= k < text::lines(parser::without_comments(body)).len() ==> {
                let line = #[trigger] text::lines(parser::without_comments(body))[k];
                line.len() == 0 || line[0] != '#'
            },
        0 <= i < parser::cards_of(before + title + after, body, None).len(),
    ensures
        parser::cards_of(before + title + after, body, None)[i].deck == title,
        parser::cards_of(before + title + after, body, None)[i].context == Seq::<
            Seq<char>,
        >::empty(),
{
    let whole = before + title + after;
    let lines = text::lines(parser::without_comments(body));
    let all = outline::blocks(lines, outline::top(whole));
    let cards = parser::callouts_of(whole, body);
    text_laws::law_white_space_at_the_ends_is_taken_off(before, title, after);
    lemma_card_is_block(all, i);
    let k = choose|k: int| 0 <= k < all.len() && all[k] == cards[i];
    lemma_one_place(lines, outline::top(whole), k);
    law_decks_are_named_by_the_headings(cards, cards[i].place);
}

proof fn lemma_one_place(lines: Seq<Seq<char>>, place: Place, k: int)
    requires
        forall|j: int|
            0 <= j < lines.len() ==> {
                let line = #[trigger] lines[j];
                line.len() == 0 || line[0] != '#'
            },
        0 <= k < outline::blocks(lines, place).len(),
    ensures
        outline::blocks(lines, place)[k].place == place,
    decreases lines.len(),
{
    lemma_marks(lines[0], Seq::empty());
    reveal_strlit("# ");
    reveal_strlit("## ");
    reveal_strlit("### ");
    assert(!outline::is_heading(lines[0]));
    if parser::callout_of(lines[0]) is Some {
        let taken = outline::body_of(lines.skip(1)).len() as int;
        outline::lemma_body_len(lines.skip(1));
        if k > 0 {
            let rest = lines.skip(1 + taken);
            assert forall|j: int| 0 <= j < rest.len() implies {
                let line = #[trigger] rest[j];
                line.len() == 0 || line[0] != '#'
            } by {
                assert(rest[j] == lines[1 + taken + j]);
            }
            lemma_one_place(rest, place, k - 1);
        }
    } else {
        let rest = lines.skip(1);
        assert forall|j: int| 0 <= j < rest.len() implies {
            let line = #[trigger] rest[j];
            line.len() == 0 || line[0] != '#'
        } by {
            assert(rest[j] == lines[1 + j]);
        }
        lemma_one_place(rest, place, k);
    }
}

// ── Counting ─────────────────────────────────────────────────────────────────

proof fn lemma_h2_numbers_finite(cards: Seq<Block>, section: nat)
    ensures
        outline::h2_numbers(cards, section).finite(),
    decreases cards.len(),
{
    if cards.len() == 0 {
        assert(outline::h2_numbers(cards, section) =~= Set::<nat>::empty());
    } else {
        lemma_h2_numbers_finite(cards.drop_last(), section);
        assert(cards.drop_last().push(cards.last()) =~= cards);
        lemma_h2_numbers_push(cards.drop_last(), cards.last(), section);
    }
}

proof fn lemma_h2_numbers_push(cards: Seq<Block>, block: Block, section: nat)
    ensures
        outline::h2_numbers(cards.push(block), section) == if block.place.section == section
            && block.place.h2 is Some {
            outline::h2_numbers(cards, section).insert(outline::number_of(block.place.h2))
        } else {
            outline::h2_numbers(cards, section)
        },
{
    let all = cards.push(block);
    let before = outline::h2_numbers(cards, section);
    let after = outline::h2_numbers(all, section);
    assert(all[cards.len() as int] == block);
    assert forall|n: nat| before.contains(n) implies after.contains(n) by {
        let i = choose|i: int|
            0 <= i < cards.len() && outline::under_h2(#[trigger] cards[i], section, n);
        assert(all[i] == cards[i]);
    }
    assert forall|n: nat| after.contains(n) && !outline::under_h2(block, section, n) implies
        before.contains(n) by {
        let i = choose|i: int|
            0 <= i < all.len() && outline::under_h2(#[trigger] all[i], section, n);
        assert(all[i] == cards[i]);
    }
    if block.place.section == section && block.place.h2 is Some {
        let m = outline::number_of(block.place.h2);
        assert(outline::under_h2(all[cards.len() as int], section, m));
        assert(after =~= before.insert(m));
    } else {
        assert(after =~= before);
    }
}

proof fn lemma_h3_numbers_finite(cards: Seq<Block>, section: nat, parent: nat)
    ensures
        outline::h3_numbers(cards, section, parent).finite(),
    decreases cards.len(),
{
    if cards.len() == 0 {
        assert(outline::h3_numbers(cards, section, parent) =~= Set::<nat>::empty());
    } else {
        lemma_h3_numbers_finite(cards.drop_last(), section, parent);
        assert(cards.drop_last().push(cards.last()) =~= cards);
        lemma_h3_numbers_push(cards.drop_last(), cards.last(), section, parent);
    }
}

proof fn lemma_h3_numbers_push(cards: Seq<Block>, block: Block, section: nat, parent: nat)
    ensures
        outline::h3_numbers(cards.push(block), section, parent) == if block.place.section
            == section && outline::number_of(block.place.h2) == parent && block.place.h3 is Some {
            outline::h3_numbers(cards, section, parent).insert(outline::number_of(block.place.h3))
        } else {
            outline::h3_numbers(cards, section, parent)
        },
{
    let all = cards.push(block);
    let before = outline::h3_numbers(cards, section, parent);
    let after = outline::h3_numbers(all, section, parent);
    assert(all[cards.len() as int] == block);
    assert forall|n: nat| before.contains(n) implies after.contains(n) by {
        let i = choose|i: int|
            0 <= i < cards.len() && outline::under_h3(#[trigger] cards[i], section, parent, n);
        assert(all[i] == cards[i]);
    }
    assert forall|n: nat| after.contains(n) && !outline::under_h3(block, section, parent, n) implies
        before.contains(n) by {
        let i = choose|i: int|
            0 <= i < all.len() && outline::under_h3(#[trigger] all[i], section, parent, n);
        assert(all[i] == cards[i]);
    }
    if block.place.section == section && outline::number_of(block.place.h2) == parent
        && block.place.h3 is Some {
        let m = outline::number_of(block.place.h3);
        assert(outline::under_h3(all[cards.len() as int], section, parent, m));
        assert(after =~= before.insert(m));
    } else {
        assert(after =~= before);
    }
}

proof fn lemma_one_more(numbers: Set<nat>, m: nat, limit: nat)
    requires
        numbers.finite(),
    ensures
        outline::up_to(numbers, limit).finite(),
        outline::up_to(numbers.insert(m), limit).len() == outline::up_to(numbers, limit).len()
            + if m <= limit && !numbers.contains(m) {
            1int
        } else {
            0
        },
        numbers.insert(m).len() == numbers.len() + if numbers.contains(m) {
            0int
        } else {
            1
        },
{
    let before = outline::up_to(numbers, limit);
    let after = outline::up_to(numbers.insert(m), limit);
    vstd::set_lib::lemma_set_subset_finite(numbers, before);
    if m <= limit {
        assert(after =~= before.insert(m));
    } else {
        assert(after =~= before);
    }
}

/// A heading of the second level is counted once, however many cards stand below it, and only
/// among those of its section. With one more card in the note, the place of a heading rises by one
/// where the card stands below a heading of the second level in the same section that had no card
/// and does not come behind it; else it stays. Without cards there is nothing to count.
pub proof fn law_second_level_headings_are_counted_once(
    cards: Seq<Block>,
    block: Block,
    section: nat,
    number: nat,
)
    ensures
        outline::h2_order_of(Seq::empty(), section, number).ordinal == 0,
        ({
            let before = outline::h2_order_of(cards, section, number).ordinal;
            let after = outline::h2_order_of(cards.push(block), section, number).ordinal;
            let is_new = block.place.section == section && (block.place.h2 matches Some(h)
                && h.number <= number && forall|i: int|
                0 <= i < cards.len() && (#[trigger] cards[i]).place.section == section ==> (
                cards[i].place.h2 matches Some(other) ==> other.number != h.number));
            after == before + if is_new {
                1int
            } else {
                0
            }
        }),
{
    let numbers = outline::h2_numbers(cards, section);
    assert(outline::up_to(outline::h2_numbers(Seq::empty(), section), number) =~= Set::<
        nat,
    >::empty());
    lemma_h2_numbers_finite(cards, section);
    lemma_h2_numbers_push(cards, block, section);
    if block.place.section == section && block.place.h2 is Some {
        let m = outline::number_of(block.place.h2);
        lemma_one_more(numbers, m, number);
        if numbers.contains(m) {
            let i = choose|i: int|
                0 <= i < cards.len() && outline::under_h2(#[trigger] cards[i], section, m);
            assert(cards[i].place.section == section);
        } else {
            assert forall|i: int|
                0 <= i < cards.len() && (#[trigger] cards[i]).place.section == section implies (
            cards[i].place.h2 matches Some(other) ==> other.number != m) by {
                assert(!outline::under_h2(cards[i], section, m));
            }
        }
    }
}

/// A heading of the third level is counted once, however many cards stand below it, and only among
/// those under the same heading of the second level, or above the first of its section.
pub proof fn law_third_level_headings_are_counted_once(
    cards: Seq<Block>,
    block: Block,
    section: nat,
    parent: nat,
    number: nat,
)
    ensures
        outline::h3_order_of(Seq::empty(), section, parent, number).ordinal == 0,
        ({
            let before = outline::h3_order_of(cards, section, parent, number).ordinal;
            let after = outline::h3_order_of(cards.push(block), section, parent, number).ordinal;
            let is_new = block.place.section == section && outline::number_of(block.place.h2)
                == parent && (block.place.h3 matches Some(h) && h.number <= number && forall|
                i: int,
            |
                0 <= i < cards.len() && (#[trigger] cards[i]).place.section == section
                    && outline::number_of(cards[i].place.h2) == parent ==> (
                cards[i].place.h3 matches Some(other) ==> other.number != h.number));
            after == before + if is_new {
                1int
            } else {
                0
            }
        }),
{
    let numbers = outline::h3_numbers(cards, section, parent);
    assert(outline::up_to(outline::h3_numbers(Seq::empty(), section, parent), number) =~= Set::<
        nat,
    >::empty());
    lemma_h3_numbers_finite(cards, section, parent);
    lemma_h3_numbers_push(cards, block, section, parent);
    if block.place.section == section && outline::number_of(block.place.h2) == parent
        && block.place.h3 is Some {
        let m = outline::number_of(block.place.h3);
        lemma_one_more(numbers, m, number);
        if numbers.contains(m) {
            let i = choose|i: int|
                0 <= i < cards.len() && outline::under_h3(#[trigger] cards[i], section, parent, m);
            assert(cards[i].place.section == section);
        } else {
            assert forall|i: int|
                0 <= i < cards.len() && (#[trigger] cards[i]).place.section == section
                    && outline::number_of(cards[i].place.h2) == parent implies (
            cards[i].place.h3 matches Some(other) ==> other.number != m) by {
                assert(!outline::under_h3(cards[i], section, parent, m));
            }
        }
    }
}

/// Ten to the power of `n`.
pub open spec fn ten_to(n: nat) -> nat
    decreases n,
{
    if n == 0 {
        1
    } else {
        10 * ten_to((n - 1) as nat)
    }
}

proof fn lemma_decimal_len(n: nat)
    ensures
        text::decimal(n).len() >= 1,
        n < ten_to(text::decimal(n).len()),
        n >= 1 ==> ten_to((text::decimal(n).len() - 1) as nat) <= n,
    decreases n,
{
    if n >= 10 {
        lemma_decimal_len(n / 10);
        assert(text::decimal(n).len() == text::decimal(n / 10).len() + 1);
    } else {
        reveal_with_fuel(ten_to, 2);
        assert(text::decimal(n).len() == 1);
    }
}

/// Places are written with as many digits as it takes to count all of them: the width is the
/// number of digits of the count, and one where there is nothing to count.
pub proof fn law_widths_fit_the_count(count: nat, ordinal: nat)
    ensures
        outline::width_for(count) >= 1,
        count < ten_to(outline::width_for(count)),
        count >= 1 ==> ten_to((outline::width_for(count) - 1) as nat) <= count,
        count == 0 ==> outline::width_for(count) == 1,
        ordinal <= count ==> text::zero_padded(ordinal, outline::width_for(count)).len()
            == outline::width_for(count),
{
    lemma_decimal_len(if count == 0 {
        1
    } else {
        count
    });
    text_laws::law_padded_numbers_stand_for_the_number(ordinal, outline::width_for(count));
    if ordinal <= count {
        lemma_decimal_len(ordinal);
        if text::decimal(ordinal).len() > outline::width_for(count) {
            lemma_ten_to_rises(
                outline::width_for(count),
                (text::decimal(ordinal).len() - 1) as nat,
            );
        }
    }
}

proof fn lemma_ten_to_rises(a: nat, b: nat)
    requires
        a <= b,
    ensures
        1 <= ten_to(a) <= ten_to(b),
    decreases b,
{
    if a < b {
        lemma_ten_to_rises(a, (b - 1) as nat);
    } else if a > 0 {
        lemma_ten_to_rises((a - 1) as nat, (a - 1) as nat);
    }
}

/// The width that a heading is written with fits the number of headings that are counted with it.
pub proof fn law_headings_are_written_as_wide_as_their_count(
    cards: Seq<Block>,
    section: nat,
    parent: nat,
    number: nat,
)
    ensures
        outline::h2_order_of(cards, section, number).width == outline::width_for(
            outline::h2_numbers(cards, section).len(),
        ),
        outline::h3_order_of(cards, section, parent, number).width == outline::width_for(
            outline::h3_numbers(cards, section, parent).len(),
        ),
        outline::h2_order_of(cards, section, number).ordinal <= outline::h2_numbers(
            cards,
            section,
        ).len(),
        outline::h3_order_of(cards, section, parent, number).ordinal <= outline::h3_numbers(
            cards,
            section,
            parent,
        ).len(),
        forall|n: nat|
            outline::h2_numbers(cards, section).contains(n) <==> exists|i: int|
                0 <= i < cards.len() && (#[trigger] cards[i]).place.section == section && (
                cards[i].place.h2 matches Some(h) && h.number == n),
        forall|n: nat|
            outline::h3_numbers(cards, section, parent).contains(n) <==> exists|i: int|
                0 <= i < cards.len() && (#[trigger] cards[i]).place.section == section
                    && outline::number_of(cards[i].place.h2) == parent && (
                cards[i].place.h3 matches Some(h) && h.number == n),
{
    let h2 = outline::h2_numbers(cards, section);
    let h3 = outline::h3_numbers(cards, section, parent);
    lemma_h2_numbers_finite(cards, section);
    lemma_h3_numbers_finite(cards, section, parent);
    vstd::set_lib::lemma_len_subset(outline::up_to(h2, number), h2);
    vstd::set_lib::lemma_len_subset(outline::up_to(h3, number), h3);
    assert forall|n: nat| h2.contains(n) implies exists|i: int|
        0 <= i < cards.len() && (#[trigger] cards[i]).place.section == section && (
        cards[i].place.h2 matches Some(h) && h.number == n) by {
        let i = choose|i: int|
            0 <= i < cards.len() && outline::under_h2(#[trigger] cards[i], section, n);
        assert(cards[i].place.section == section);
    }
    assert forall|n: nat|
        (exists|i: int|
            0 <= i < cards.len() && (#[trigger] cards[i]).place.section == section && (
            cards[i].place.h2 matches Some(h) && h.number == n)) implies h2.contains(n) by {
        let i = choose|i: int|
            0 <= i < cards.len() && (#[trigger] cards[i]).place.section == section && (
            cards[i].place.h2 matches Some(h) && h.number == n);
        assert(outline::under_h2(cards[i], section, n));
    }
    assert forall|n: nat| h3.contains(n) implies exists|i: int|
        0 <= i < cards.len() && (#[trigger] cards[i]).place.section == section
            && outline::number_of(cards[i].place.h2) == parent && (cards[i].place.h3 matches Some(h)
            && h.number == n) by {
        let i = choose|i: int|
            0 <= i < cards.len() && outline::under_h3(#[trigger] cards[i], section, parent, n);
        assert(cards[i].place.section == section);
    }
    assert forall|n: nat|
        (exists|i: int|
            0 <= i < cards.len() && (#[trigger] cards[i]).place.section == section
                && outline::number_of(cards[i].place.h2) == parent && (
            cards[i].place.h3 matches Some(h) && h.number == n)) implies h3.contains(n) by {
        let i = choose|i: int|
            0 <= i < cards.len() && (#[trigger] cards[i]).place.section == section
                && outline::number_of(cards[i].place.h2) == parent && (
            cards[i].place.h3 matches Some(h) && h.number == n);
        assert(outline::under_h3(cards[i], section, parent, n));
    }
}

// ── Names ────────────────────────────────────────────────────────────────────

/// The name of a deck is the heading of the first level, then behind a double colon each that
/// stands above the card of the second and third, with its place in front: digits that stand for
/// it, and a dot. The context is the titles of the two, without their places.
pub proof fn law_decks_are_named_by_the_headings(cards: Seq<Block>, place: Place)
    ensures
        ({
            let deck = parser::deck_at(cards, place);
            let context = parser::context_at(place);
            let sep = seq![':', ':'];
            let second = |h: outline::Heading|
                {
                    let order = outline::h2_order_of(cards, place.section, h.number);
                    text::zero_padded(order.ordinal, order.width) + seq!['.'] + h.title
                };
            let third = |h: outline::Heading|
                {
                    let order = outline::h3_order_of(
                        cards,
                        place.section,
                        outline::number_of(place.h2),
                        h.number,
                    );
                    text::zero_padded(order.ordinal, order.width) + seq!['.'] + h.title
                };
            match (place.h2, place.h3) {
                (None, None) => deck == place.h1 && context == Seq::<Seq<char>>::empty(),
                (Some(h2), None) => deck == place.h1 + sep + second(h2) && context == seq![
                    h2.title,
                ],
                (None, Some(h3)) => deck == place.h1 + sep + third(h3) && context == seq![
                    h3.title,
                ],
                (Some(h2), Some(h3)) => deck == place.h1 + sep + second(h2) + sep + third(h3)
                    && context == seq![h2.title, h3.title],
            }
        }),
{
    reveal_strlit("::");
    reveal_strlit(".");
    let sep = "::"@;
    assert(sep =~= seq![':', ':']);
    assert("."@ =~= seq!['.']);
    let h1 = place.h1;
    let none = Seq::<Seq<char>>::empty();
    match (place.h2, place.h3) {
        (None, None) => {
            text_laws::law_parts_are_joined_in_order(h1, seq![h1], none, sep);
        },
        (Some(h2), None) => {
            let order = outline::h2_order_of(cards, place.section, h2.number);
            let b = parser::ordered_title(h2.title, order);
            lemma_joined_two(h1, b, sep);
            assert(parser::and_maybe(seq![h1], Some(b)) =~= seq![h1, b]);
            assert(parser::context_at(place) =~= seq![h2.title]);
        },
        (None, Some(h3)) => {
            let order = outline::h3_order_of(cards, place.section, 0, h3.number);
            let c = parser::ordered_title(h3.title, order);
            lemma_joined_two(h1, c, sep);
            assert(parser::and_maybe(seq![h1], Some(c)) =~= seq![h1, c]);
            assert(parser::context_at(place) =~= seq![h3.title]);
        },
        (Some(h2), Some(h3)) => {
            let b = parser::ordered_title(
                h2.title,
                outline::h2_order_of(cards, place.section, h2.number),
            );
            let c = parser::ordered_title(
                h3.title,
                outline::h3_order_of(cards, place.section, h2.number, h3.number),
            );
            lemma_joined_two(h1, b, sep);
            text_laws::law_parts_are_joined_in_order(c, seq![h1, b], seq![c], sep);
            assert(seq![h1, b] + seq![c] =~= seq![h1, b, c]);
            assert(parser::and_maybe(parser::and_maybe(seq![h1], Some(b)), Some(c)) =~= seq![
                h1,
                b,
                c,
            ]);
            assert(parser::context_at(place) =~= seq![h2.title, h3.title]);
        },
    }
}

proof fn lemma_joined_two(a: Seq<char>, b: Seq<char>, sep: Seq<char>)
    ensures
        text::join(seq![a, b], sep) == a + sep + b,
        text::join(seq![a], sep) == a,
        text::join(seq![b], sep) == b,
{
    text_laws::law_parts_are_joined_in_order(a, seq![a], seq![b], sep);
    text_laws::law_parts_are_joined_in_order(b, seq![a], seq![b], sep);
    assert(seq![a] + seq![b] =~= seq![a, b]);
}

} // verus!
