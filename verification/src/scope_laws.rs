//! What holds of the notes that a run looks at, and of the cards that it finds in them.

use vstd::prelude::*;

use crate::parser::{BearNote, CardModel};
use crate::scope;
use crate::scope::{ScopedModel, SourceNote};
use crate::text;
use crate::text_laws;

verus! {

// ── Notes ────────────────────────────────────────────────────────────────────

/// The wanted words stand somewhere in the title, with both in small letters.
pub open spec fn holds_words(title: Seq<char>, words: Seq<char>) -> bool {
    exists|a: Seq<char>, b: Seq<char>| text::lowercase(title) == #[trigger] (a + text::lowercase(
        words,
    ) + b)
}

/// A title matches where it holds the words.
proof fn lemma_title_matches(note: BearNote, title: Seq<char>)
    ensures
        scope::title_matches(title)(note) == holds_words(note.title@, title),
{
    let whole = text::lowercase(note.title@);
    let wanted = text::lowercase(title);
    if holds_words(note.title@, title) {
        let (a, b) = choose|a: Seq<char>, b: Seq<char>| whole == #[trigger] (a + wanted + b);
        text_laws::law_texts_hold_what_stands_in_them(a, wanted, b, whole);
    }
    if text::contains(whole, wanted) {
        let i = choose|i: int| text::occurs_at(whole, wanted, i);
        let a = whole.take(i);
        let b = whole.skip(i + wanted.len());
        assert(whole =~= a + wanted + b);
    }
}

/// A note is kept exactly where the words, in small letters, stand somewhere in its title, in
/// small letters: whatever comes before them or after them. What is kept is one of the notes.
pub proof fn law_notes_are_kept_by_the_words_in_their_title(
    notes: Vec<BearNote>,
    title: &str,
    kept: Vec<BearNote>,
    note: BearNote,
    a: Seq<char>,
    b: Seq<char>,
)
    requires
        call_ensures(scope::filter_notes, (notes, title), kept),
    ensures
        notes@.contains(note) && text::lowercase(note.title@) == a + text::lowercase(title@) + b
            ==> kept@.contains(note),
        kept@.contains(note) ==> notes@.contains(note) && holds_words(note.title@, title@),
{
    let pred = scope::title_matches(title@);
    lemma_title_matches(note, title@);
    if notes@.contains(note) && text::lowercase(note.title@) == a + text::lowercase(title@) + b {
        assert(holds_words(note.title@, title@));
        let i = choose|i: int| 0 <= i < notes@.len() && notes@[i] == note;
        notes@.lemma_filter_contains(pred, i);
    }
    if kept@.contains(note) {
        notes@.lemma_filter_contains_rev(pred, note);
        let k = choose|k: int| 0 <= k < kept@.len() && kept@[k] == note;
        notes@.lemma_filter_pred(pred, k);
    }
}

/// The notes are kept or left out one by one, in their order: of two lists together that is kept
/// which is kept of the first, then what is kept of the second; and of a single note it depends
/// on its title alone.
pub proof fn law_notes_are_kept_one_by_one(
    first: Vec<BearNote>,
    second: Vec<BearNote>,
    both: Vec<BearNote>,
    title: &str,
    kept_first: Vec<BearNote>,
    kept_second: Vec<BearNote>,
    kept: Vec<BearNote>,
)
    requires
        both@ == first@ + second@,
        call_ensures(scope::filter_notes, (first, title), kept_first),
        call_ensures(scope::filter_notes, (second, title), kept_second),
        call_ensures(scope::filter_notes, (both, title), kept),
    ensures
        kept@ == kept_first@ + kept_second@,
        first@.len() == 1 ==> kept_first@ == if holds_words(first@[0].title@, title@) {
            first@
        } else {
            Seq::empty()
        },
{
    let pred = scope::title_matches(title@);
    Seq::filter_distributes_over_add(first@, second@, pred);
    if first@.len() == 1 {
        lemma_title_matches(first@[0], title@);
        reveal(Seq::filter);
        assert(first@.drop_last() =~= Seq::<BearNote>::empty());
        assert(first@.drop_last().filter(pred) =~= Seq::<BearNote>::empty());
        assert(first@ =~= seq![first@[0]]);
    }
}

/// Without wanted words a run looks at all notes; else at those whose title holds them.
pub proof fn law_all_notes_are_in_scope_without_a_filter(
    notes: Vec<BearNote>,
    title: &str,
    all: Vec<BearNote>,
    some: Vec<BearNote>,
    note: BearNote,
)
    requires
        call_ensures(scope::notes_in_scope, (notes, None::<&str>), all),
        call_ensures(scope::notes_in_scope, (notes, Some(title)), some),
    ensures
        all@ == notes@,
        some@.contains(note) <==> notes@.contains(note) && holds_words(note.title@, title@),
{
    let pred = scope::title_matches(title@);
    lemma_title_matches(note, title@);
    if notes@.contains(note) && holds_words(note.title@, title@) {
        let i = choose|i: int| 0 <= i < notes@.len() && notes@[i] == note;
        notes@.lemma_filter_contains(pred, i);
    }
    if some@.contains(note) {
        notes@.lemma_filter_contains_rev(pred, note);
        let k = choose|k: int| 0 <= k < some@.len() && some@[k] == note;
        notes@.lemma_filter_pred(pred, k);
    }
}

/// The last note of an identifier gives its title, without the white space at the ends; one
/// without a title goes by its identifier. No other identifier has a title.
pub proof fn law_the_last_note_gives_the_title(
    notes: Seq<(String, String)>,
    i: int,
    id: Seq<char>,
)
    requires
        0 <= i < notes.len(),
        forall|j: int| i < j < notes.len() ==> (#[trigger] notes[j]).0@ != notes[i].0@,
        forall|j: int| 0 <= j < notes.len() ==> (#[trigger] notes[j]).0@ != id,
    ensures
        scope::titles_of(notes).contains_key(notes[i].0@),
        scope::titles_of(notes)[notes[i].0@] == if text::trim(notes[i].1@) == Seq::<char>::empty() {
            notes[i].0@
        } else {
            text::trim(notes[i].1@)
        },
        !scope::titles_of(notes).contains_key(id),
    decreases notes.len(),
{
    let front = notes.drop_last();
    lemma_no_title(front, id);
    assert(notes.last() == notes[notes.len() - 1]);
    if i < front.len() {
        assert(front[i] == notes[i]);
        law_the_last_note_gives_the_title(front, i, id);
    } else {
        assert(text::trim(notes[i].1@).len() == 0 ==> text::trim(notes[i].1@) =~= Seq::<
            char,
        >::empty());
    }
}

proof fn lemma_no_title(notes: Seq<(String, String)>, id: Seq<char>)
    requires
        forall|j: int| 0 <= j < notes.len() ==> (#[trigger] notes[j]).0@ != id,
    ensures
        !scope::titles_of(notes).contains_key(id),
    decreases notes.len(),
{
    if notes.len() > 0 {
        assert(notes.last() == notes[notes.len() - 1]);
        lemma_no_title(notes.drop_last(), id);
    }
}

// ── Cards ────────────────────────────────────────────────────────────────────

/// The tags of a note are those of the last note of its identifier.
pub proof fn law_the_last_note_gives_the_tags(notes: Seq<SourceNote>, i: int)
    requires
        0 <= i < notes.len(),
        forall|j: int|
            i < j < notes.len() ==> (#[trigger] notes[j]).note.identifier@
                != notes[i].note.identifier@,
    ensures
        scope::tags_of_notes(notes).contains_key(notes[i].note.identifier@),
        scope::tags_of_notes(notes)[notes[i].note.identifier@] == text::texts(notes[i].note.tags@),
    decreases notes.len(),
{
    let front = notes.drop_last();
    assert(notes.last() == notes[notes.len() - 1]);
    if i < front.len() {
        assert(front[i] == notes[i]);
        law_the_last_note_gives_the_tags(front, i);
    }
}

/// The cards of a note with its identifier.
pub open spec fn named(note_id: Seq<char>, cards: Seq<CardModel>) -> Seq<ScopedModel> {
    cards.map_values(|card: CardModel| ScopedModel { note_id, card })
}

/// All cards of some notes, in the order of the notes and of their text.
pub open spec fn all_cards(notes: Seq<SourceNote>) -> Seq<ScopedModel>
    decreases notes.len(),
{
    if notes.len() == 0 {
        Seq::empty()
    } else {
        all_cards(notes.drop_last()) + named(
            notes.last().note.identifier@,
            scope::cards_in(notes.last()),
        )
    }
}

/// A card of that identity is among the first `n`.
pub open spec fn is_before(cards: Seq<ScopedModel>, id: (Seq<char>, Seq<char>), n: int) -> bool {
    exists|k: int| 0 <= k < n && k < cards.len() && scope::identity(#[trigger] cards[k]) == id
}

/// `list` holds each identity of `cards` once: the card that has it last, in the order in which
/// the identities occur first.
pub open spec fn holds_each_once(cards: Seq<ScopedModel>, list: Seq<ScopedModel>) -> bool {
    &&& forall|i: int, j: int|
        0 <= i < j < list.len() ==> scope::identity(#[trigger] list[i]) != scope::identity(
            #[trigger] list[j],
        )
    &&& forall|k: int|
        0 <= k < cards.len() ==> list.contains(#[trigger] cards[k]) || is_behind(cards, k)
    &&& forall|i: int| 0 <= i < list.len() ==> is_last(cards, #[trigger] list[i])
    &&& forall|i: int, j: int|
        0 <= i < j < list.len() ==> comes_first(
            cards,
            scope::identity(#[trigger] list[i]),
            scope::identity(#[trigger] list[j]),
        )
}

/// A card of the same identity stands behind position `k`.
pub open spec fn is_behind(cards: Seq<ScopedModel>, k: int) -> bool {
    exists|l: int|
        k < l < cards.len() && scope::identity(#[trigger] cards[l]) == scope::identity(cards[k])
}

/// The card is the last one of its identity.
pub open spec fn is_last(cards: Seq<ScopedModel>, card: ScopedModel) -> bool {
    exists|k: int| 0 <= k < cards.len() && #[trigger] cards[k] == card && !is_behind(cards, k)
}

/// The first card of one identity stands before all of the other.
pub open spec fn comes_first(
    cards: Seq<ScopedModel>,
    id: (Seq<char>, Seq<char>),
    other: (Seq<char>, Seq<char>),
) -> bool {
    exists|k: int|
        0 <= k < cards.len() && scope::identity(#[trigger] cards[k]) == id && !is_before(
            cards,
            other,
            k,
        )
}

/// One more card.
proof fn lemma_one_more(cards: Seq<ScopedModel>, list: Seq<ScopedModel>, card: ScopedModel)
    requires
        holds_each_once(cards, list),
    ensures
        holds_each_once(cards.push(card), scope::with_card(list, card)),
{
    let more = cards.push(card);
    let next = scope::with_card(list, card);
    let id = scope::identity(card);
    let n = cards.len() as int;
    scope::lemma_position_of(list, id);
    scope::lemma_with_card(list, card);
    assert(more[n] == card);
    assert forall|k: int| 0 <= k < n implies more[k] == #[trigger] cards[k] by {}
    assert(next.contains(card)) by {
        match scope::position_of(list, id) {
            Some(p) => {
                assert(next[p] == card);
            },
            None => {
                assert(next[list.len() as int] == card);
            },
        }
    }
    assert forall|k: int| 0 <= k < more.len() implies next.contains(#[trigger] more[k])
        || is_behind(more, k) by {
        if k < n {
            assert(more[k] == cards[k]);
            if scope::identity(cards[k]) == id {
                assert(scope::identity(more[n]) == scope::identity(more[k]));
            } else if is_behind(cards, k) {
                let l = choose|l: int|
                    k < l < cards.len() && scope::identity(#[trigger] cards[l]) == scope::identity(
                        cards[k],
                    );
                assert(scope::identity(more[l]) == scope::identity(more[k]));
            } else {
                let i = choose|i: int| 0 <= i < list.len() && list[i] == cards[k];
                assert(next[i] == cards[k]);
            }
        }
    }
    assert forall|i: int| 0 <= i < next.len() implies is_last(more, #[trigger] next[i]) by {
        if next[i] == card {
            assert(more[n] == card && !is_behind(more, n));
        } else {
            assert(next[i] == list[i]);
            assert(scope::identity(list[i]) != id) by {
                if scope::identity(list[i]) == id {
                    match scope::position_of(list, id) {
                        Some(p) => {
                            if p < i {
                                assert(scope::identity(list[p]) != scope::identity(list[i]));
                            } else if i < p {
                                assert(scope::identity(list[i]) != scope::identity(list[p]));
                            }
                        },
                        None => {},
                    }
                }
            }
            assert(is_last(cards, list[i]));
            let k = choose|k: int|
                0 <= k < cards.len() && #[trigger] cards[k] == list[i] && !is_behind(cards, k);
            assert(more[k] == cards[k]);
            if is_behind(more, k) {
                let l = choose|l: int|
                    k < l < more.len() && scope::identity(#[trigger] more[l]) == scope::identity(
                        more[k],
                    );
                assert(more[l] == cards[l]);
            }
            assert(more[k] == next[i] && !is_behind(more, k));
        }
    }
    assert forall|i: int, j: int| 0 <= i < j < next.len() implies comes_first(
        more,
        scope::identity(#[trigger] next[i]),
        scope::identity(#[trigger] next[j]),
    ) by {
        let a = scope::identity(next[i]);
        let b = scope::identity(next[j]);
        if j < list.len() {
            assert(scope::identity(list[i]) == a && scope::identity(list[j]) == b);
            lemma_still_first(cards, card, a, b);
        } else {
            // The new card is the first of its identity.
            assert(list.len() == j && b == id && a == scope::identity(list[i]));
            assert(is_last(cards, list[i]));
            let k = choose|k: int|
                0 <= k < cards.len() && #[trigger] cards[k] == list[i] && !is_behind(cards, k);
            assert(more[k] == cards[k]);
            assert(!is_before(more, b, k)) by {
                if is_before(more, b, k) {
                    let m = choose|m: int|
                        0 <= m < k && m < more.len() && scope::identity(#[trigger] more[m]) == b;
                    assert(more[m] == cards[m]);
                    lemma_in_list(cards, list, m);
                }
            }
            assert(scope::identity(more[k]) == a);
        }
    }
}

/// The identity of every card is in the list.
proof fn lemma_in_list(cards: Seq<ScopedModel>, list: Seq<ScopedModel>, k: int)
    requires
        holds_each_once(cards, list),
        0 <= k < cards.len(),
    ensures
        scope::in_scope(list, scope::identity(cards[k])),
    decreases cards.len() - k,
{
    if list.contains(cards[k]) {
        let i = choose|i: int| 0 <= i < list.len() && list[i] == cards[k];
        assert(scope::identity(list[i]) == scope::identity(cards[k]));
    } else {
        let l = choose|l: int|
            k < l < cards.len() && scope::identity(#[trigger] cards[l]) == scope::identity(
                cards[k],
            );
        lemma_in_list(cards, list, l);
    }
}

/// What comes first still comes first with one more card.
proof fn lemma_still_first(
    cards: Seq<ScopedModel>,
    card: ScopedModel,
    a: (Seq<char>, Seq<char>),
    b: (Seq<char>, Seq<char>),
)
    requires
        comes_first(cards, a, b),
    ensures
        comes_first(cards.push(card), a, b),
{
    let more = cards.push(card);
    let k = choose|k: int|
        0 <= k < cards.len() && scope::identity(#[trigger] cards[k]) == a && !is_before(
            cards,
            b,
            k,
        );
    assert(more[k] == cards[k]);
    if is_before(more, b, k) {
        let m = choose|m: int|
            0 <= m < k && m < more.len() && scope::identity(#[trigger] more[m]) == b;
        assert(more[m] == cards[m]);
    }
}

proof fn lemma_note(
    cards: Seq<ScopedModel>,
    list: Seq<ScopedModel>,
    note_id: Seq<char>,
    found: Seq<CardModel>,
)
    requires
        holds_each_once(cards, list),
    ensures
        holds_each_once(cards + named(note_id, found), scope::with_cards(list, note_id, found)),
    decreases found.len(),
{
    if found.len() == 0 {
        assert(cards + named(note_id, found) =~= cards);
    } else {
        let front = found.drop_last();
        let last = ScopedModel { note_id, card: found.last() };
        lemma_note(cards, list, note_id, front);
        lemma_one_more(
            cards + named(note_id, front),
            scope::with_cards(list, note_id, front),
            last,
        );
        assert(cards + named(note_id, found) =~= (cards + named(note_id, front)).push(last));
    }
}

/// A run is about each card of its notes once. Where two have the same identity, the last one
/// counts; the cards stand in the order in which their identities first occur.
pub proof fn law_the_last_card_of_an_identity_counts(notes: Seq<SourceNote>)
    ensures
        holds_each_once(all_cards(notes), scope::cards_of_notes(notes)),
    decreases notes.len(),
{
    if notes.len() > 0 {
        let front = notes.drop_last();
        law_the_last_card_of_an_identity_counts(front);
        lemma_note(
            all_cards(front),
            scope::cards_of_notes(front),
            notes.last().note.identifier@,
            scope::cards_in(notes.last()),
        );
    }
}

} // verus!
