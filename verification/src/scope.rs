//! What a run is about: the notes that it looks at and the cards that they hold.

use vstd::prelude::*;

use crate::chars;
use crate::parser;
use crate::parser::{BearNote, Card, CardModel, NoteBody};
use crate::text;
use crate::text_map;
use crate::text_map::TextMap;

verus! {

// ── Notes ────────────────────────────────────────────────────────────────────

/// The note has the wanted words in its title, in letters of either case.
pub open spec fn title_matches(title: Seq<char>) -> spec_fn(BearNote) -> bool {
    |note: BearNote| text::contains(text::lowercase(note.title@), text::lowercase(title))
}

/// The notes whose title holds some words, in their order.
pub fn filter_notes(notes: Vec<BearNote>, title: &str) -> (kept: Vec<BearNote>)
    ensures
        kept@ == notes@.filter(title_matches(title@)),
{
    let wanted = chars::to_lowercase(title);
    let mut kept: Vec<BearNote> = Vec::new();
    let ghost all = notes@;
    assert(all.take(0).filter(title_matches(title@)) == Seq::<BearNote>::empty()) by {
        reveal(Seq::filter);
    }
    for note in it: notes.into_iter()
        invariant
            it.seq() == all,
            wanted@ == text::lowercase(title@),
            kept@ == all.take(it.index()).filter(title_matches(title@)),
    {
        proof {
            reveal(Seq::filter);
            assert(all.take(it.index() + 1).drop_last() == all.take(it.index()));
        }
        let lower = chars::to_lowercase(note.title.as_str());
        if chars::contains(lower.as_str(), wanted.as_str()) {
            kept.push(note);
        }
    }
    assert(all.take(all.len() as int) == all);
    kept
}

/// The notes that a run looks at: those whose title holds the wanted words, where there are any.
pub fn notes_in_scope(notes: Vec<BearNote>, note_filter: Option<&str>) -> (kept: Vec<BearNote>)
    ensures
        kept@ == match note_filter {
            Some(title) => notes@.filter(title_matches(title@)),
            None => notes@,
        },
{
    match note_filter {
        Some(title) => filter_notes(notes, title),
        None => notes,
    }
}

/// The titles of some notes by their identifiers. A note without a title goes by its identifier;
/// the last note of an identifier counts.
pub open spec fn titles_of(notes: Seq<(String, String)>) -> Map<Seq<char>, Seq<char>>
    decreases notes.len(),
{
    if notes.len() == 0 {
        Map::empty()
    } else {
        let (id, title) = notes.last();
        titles_of(notes.drop_last()).insert(
            id@,
            if text::trim(title@).len() == 0 {
                id@
            } else {
                text::trim(title@)
            },
        )
    }
}

/// The titles of some notes by their identifiers.
pub fn note_title_map(notes: &Vec<(String, String)>) -> (titles: TextMap<String>)
    ensures
        text_map::text_values(titles@) == titles_of(notes@),
{
    let mut titles: TextMap<String> = TextMap::new();
    assert(text_map::text_values(titles@) =~= Map::<Seq<char>, Seq<char>>::empty());
    for i in 0..notes.len()
        invariant
            text_map::text_values(titles@) == titles_of(notes@.take(i as int)),
    {
        assert(notes@.take(i + 1).drop_last() == notes@.take(i as int));
        let ghost before = titles@;
        let id = notes[i].0.clone();
        let trimmed = chars::trim(notes[i].1.as_str());
        let title = if trimmed.as_str().is_empty() {
            notes[i].0.clone()
        } else {
            trimmed
        };
        titles.insert(id, title);
        assert(text_map::text_values(titles@) =~= text_map::text_values(
            before,
        ).insert(id@, title@));
    }
    assert(notes@.take(notes@.len() as int) == notes@);
    titles
}

// ── Cards ────────────────────────────────────────────────────────────────────

/// A note and its text without the front matter.
#[derive(Debug)]
pub struct SourceNote {
    pub note: BearNote,
    pub body: NoteBody,
}

/// The cards of a note.
pub open spec fn cards_in(source: SourceNote) -> Seq<CardModel> {
    parser::cards_of(
        source.note.title@,
        source.body.text@,
        text::opt_text(source.body.deck_override),
    )
}

/// A card and the note that it stands in.
#[derive(Debug)]
pub struct ScopedCard {
    pub note_id: String,
    pub card: Card,
}

/// What a `ScopedCard` says.
pub struct ScopedModel {
    pub note_id: Seq<char>,
    pub card: CardModel,
}

impl View for ScopedCard {
    type V = ScopedModel;

    open spec fn view(&self) -> ScopedModel {
        ScopedModel { note_id: self.note_id@, card: self.card@ }
    }
}

/// What a list of cards says.
pub open spec fn scoped_models(cards: Seq<ScopedCard>) -> Seq<ScopedModel> {
    Seq::new(cards.len(), |i: int| cards[i]@)
}

/// What identifies a card: its note and its fingerprint.
pub open spec fn identity(card: ScopedModel) -> (Seq<char>, Seq<char>) {
    (card.note_id, card.card.fingerprint)
}

/// The position of the card with that identity.
pub open spec fn position_of(cards: Seq<ScopedModel>, id: (Seq<char>, Seq<char>)) -> Option<int>
    decreases cards.len(),
{
    if cards.len() == 0 {
        None
    } else if identity(cards.last()) == id {
        Some(cards.len() - 1)
    } else {
        position_of(cards.drop_last(), id)
    }
}

/// A list with one more card. Where a card of the same identity is in it, the new one takes its
/// place.
pub open spec fn with_card(cards: Seq<ScopedModel>, card: ScopedModel) -> Seq<ScopedModel> {
    match position_of(cards, identity(card)) {
        Some(i) => cards.update(i, card),
        None => cards.push(card),
    }
}

/// A list with the cards of one more note.
pub open spec fn with_cards(
    cards: Seq<ScopedModel>,
    note_id: Seq<char>,
    more: Seq<CardModel>,
) -> Seq<ScopedModel>
    decreases more.len(),
{
    if more.len() == 0 {
        cards
    } else {
        with_card(
            with_cards(cards, note_id, more.drop_last()),
            ScopedModel { note_id, card: more.last() },
        )
    }
}

/// The cards of some notes, each identity once: where it first occurs stands the card that
/// occurs last.
pub open spec fn cards_of_notes(notes: Seq<SourceNote>) -> Seq<ScopedModel>
    decreases notes.len(),
{
    if notes.len() == 0 {
        Seq::empty()
    } else {
        with_cards(
            cards_of_notes(notes.drop_last()),
            notes.last().note.identifier@,
            cards_in(notes.last()),
        )
    }
}

/// The tags of each of some notes.
pub open spec fn tags_of_notes(notes: Seq<SourceNote>) -> Map<Seq<char>, Seq<Seq<char>>>
    decreases notes.len(),
{
    if notes.len() == 0 {
        Map::empty()
    } else {
        tags_of_notes(notes.drop_last()).insert(
            notes.last().note.identifier@,
            text::texts(notes.last().note.tags@),
        )
    }
}

/// What a run is about.
#[derive(Debug)]
pub struct Scope {
    pub cards: Vec<ScopedCard>,
    /// The tags of each note.
    pub tags: TextMap<Vec<String>>,
}

/// What a `Scope` says.
pub struct ScopeModel {
    pub cards: Seq<ScopedModel>,
    pub tags: Map<Seq<char>, Seq<Seq<char>>>,
}

/// A map of lists of strings as a map of lists of texts.
pub open spec fn list_values(map: Map<Seq<char>, Vec<String>>) -> Map<Seq<char>, Seq<Seq<char>>> {
    Map::new(|key: Seq<char>| map.contains_key(key), |key: Seq<char>| text::texts(map[key]@))
}

impl View for Scope {
    type V = ScopeModel;

    open spec fn view(&self) -> ScopeModel {
        ScopeModel { cards: scoped_models(self.cards@), tags: list_values(self.tags@) }
    }
}

/// The scope that some notes make.
pub open spec fn scope_of(notes: Seq<SourceNote>) -> ScopeModel {
    ScopeModel { cards: cards_of_notes(notes), tags: tags_of_notes(notes) }
}

/// No two cards have the same identity.
pub open spec fn identities_differ(cards: Seq<ScopedModel>) -> bool {
    forall|i: int, j: int|
        0 <= i < j < cards.len() ==> identity(#[trigger] cards[i]) != identity(#[trigger] cards[j])
}

/// A card with that identity is in the list.
pub open spec fn in_scope(cards: Seq<ScopedModel>, id: (Seq<char>, Seq<char>)) -> bool {
    exists|i: int| 0 <= i < cards.len() && identity(#[trigger] cards[i]) == id
}

/// A position is found for exactly the identities in the list.
pub proof fn lemma_position_of(cards: Seq<ScopedModel>, id: (Seq<char>, Seq<char>))
    ensures
        match position_of(cards, id) {
            Some(i) => 0 <= i < cards.len() && identity(cards[i]) == id,
            None => !in_scope(cards, id),
        },
    decreases cards.len(),
{
    if cards.len() > 0 && identity(cards.last()) != id {
        let front = cards.drop_last();
        lemma_position_of(front, id);
        if position_of(front, id) is None && in_scope(cards, id) {
            let i = choose|i: int| 0 <= i < cards.len() && identity(#[trigger] cards[i]) == id;
            assert(front[i] == cards[i]);
        }
    }
}

/// The position of the card with that identity.
fn find_card(cards: &Vec<ScopedCard>, note_id: &str, fp: &str) -> (position: Option<usize>)
    requires
        identities_differ(scoped_models(cards@)),
    ensures
        match position {
            Some(i) => position_of(scoped_models(cards@), (note_id@, fp@)) == Some(i as int),
            None => position_of(scoped_models(cards@), (note_id@, fp@)) is None,
        },
{
    let ghost models = scoped_models(cards@);
    let ghost id = (note_id@, fp@);
    proof {
        lemma_position_of(models, id);
    }
    for i in 0..cards.len()
        invariant
            models == scoped_models(cards@),
            identities_differ(models),
            id == (note_id@, fp@),
            match position_of(models, id) {
                Some(x) => 0 <= x < models.len() && identity(models[x]) == id,
                None => !in_scope(models, id),
            },
            forall|j: int| 0 <= j < i ==> identity(#[trigger] models[j]) != id,
    {
        assert(models[i as int] == cards@[i as int]@);
        if chars::same_text(cards[i].note_id.as_str(), note_id) && chars::same_text(
            cards[i].card.fingerprint.as_str(),
            fp,
        ) {
            assert(identity(models[i as int]) == id);
            let ghost x = position_of(models, id)->0;
            assert(x == i) by {
                if x < i {
                    assert(identity(models[x]) != id);
                } else if i < x {
                    assert(identity(models[i as int]) != identity(models[x]));
                }
            }
            return Some(i);
        }
    }
    None
}

/// Tells whether a card with that identity is in the list.
pub fn contains_card(cards: &Vec<ScopedCard>, note_id: &str, fp: &str) -> (found: bool)
    ensures
        found == in_scope(scoped_models(cards@), (note_id@, fp@)),
{
    let ghost models = scoped_models(cards@);
    for i in 0..cards.len()
        invariant
            models == scoped_models(cards@),
            forall|j: int| 0 <= j < i ==> identity(#[trigger] models[j]) != (note_id@, fp@),
    {
        assert(models[i as int] == cards@[i as int]@);
        if chars::same_text(cards[i].note_id.as_str(), note_id) && chars::same_text(
            cards[i].card.fingerprint.as_str(),
            fp,
        ) {
            assert(identity(models[i as int]) == (note_id@, fp@));
            return true;
        }
    }
    false
}

/// The cards of a list keep their identities apart when one more comes to it.
pub proof fn lemma_with_card(cards: Seq<ScopedModel>, card: ScopedModel)
    requires
        identities_differ(cards),
    ensures
        identities_differ(with_card(cards, card)),
        forall|id: (Seq<char>, Seq<char>)| #[trigger]
            in_scope(with_card(cards, card), id) <==> in_scope(cards, id) || id == identity(card),
{
    let more = with_card(cards, card);
    lemma_position_of(cards, identity(card));
    assert forall|i: int, j: int| 0 <= i < j < more.len() implies identity(#[trigger] more[i])
        != identity(#[trigger] more[j]) by {
        match position_of(cards, identity(card)) {
            Some(p) => {
                assert(identity(cards[i]) != identity(cards[j]));
            },
            None => {
                if j < cards.len() {
                    assert(identity(cards[i]) != identity(cards[j]));
                } else {
                    assert(identity(cards[i]) != identity(card));
                }
            },
        }
    }
    assert forall|id: (Seq<char>, Seq<char>)| #[trigger]
        in_scope(more, id) <==> in_scope(cards, id) || id == identity(card) by {
        if in_scope(cards, id) {
            let i = choose|i: int| 0 <= i < cards.len() && identity(#[trigger] cards[i]) == id;
            assert(identity(more[i]) == id);
        }
        if id == identity(card) {
            match position_of(cards, identity(card)) {
                Some(p) => {
                    assert(identity(more[p]) == id);
                },
                None => {
                    assert(identity(more[cards.len() as int]) == id);
                },
            }
        }
        if in_scope(more, id) && id != identity(card) {
            let i = choose|i: int| 0 <= i < more.len() && identity(#[trigger] more[i]) == id;
            assert(identity(cards[i]) == id);
        }
    }
}

/// A card with that identity is one of the cards of a note.
pub open spec fn is_among(
    note_id: Seq<char>,
    more: Seq<CardModel>,
    id: (Seq<char>, Seq<char>),
) -> bool {
    note_id == id.0 && exists|k: int|
        0 <= k < more.len() && (#[trigger] more[k]).fingerprint == id.1
}

proof fn lemma_with_cards(cards: Seq<ScopedModel>, note_id: Seq<char>, more: Seq<CardModel>)
    requires
        identities_differ(cards),
    ensures
        identities_differ(with_cards(cards, note_id, more)),
        forall|id: (Seq<char>, Seq<char>)| #[trigger]
            in_scope(with_cards(cards, note_id, more), id) <==> in_scope(cards, id) || is_among(
                note_id,
                more,
                id,
            ),
    decreases more.len(),
{
    if more.len() > 0 {
        let front = more.drop_last();
        let last = ScopedModel { note_id, card: more.last() };
        lemma_with_cards(cards, note_id, front);
        lemma_with_card(with_cards(cards, note_id, front), last);
        assert forall|id: (Seq<char>, Seq<char>)| #[trigger]
            in_scope(with_cards(cards, note_id, more), id) <==> in_scope(cards, id) || is_among(
                note_id,
                more,
                id,
            ) by {
            assert(in_scope(with_cards(cards, note_id, front), id) <==> in_scope(cards, id)
                || is_among(note_id, front, id));
            if is_among(note_id, front, id) {
                let k = choose|k: int|
                    0 <= k < front.len() && (#[trigger] front[k]).fingerprint == id.1;
                assert(more[k].fingerprint == id.1);
            }
            if id == identity(last) {
                assert(more[more.len() - 1].fingerprint == id.1);
            }
            if is_among(note_id, more, id) && id != identity(last) {
                let k = choose|k: int|
                    0 <= k < more.len() && (#[trigger] more[k]).fingerprint == id.1;
                assert(front[k].fingerprint == id.1);
            }
        }
    }
}

/// A card with that identity stands in one of the notes.
pub open spec fn stands_in(notes: Seq<SourceNote>, id: (Seq<char>, Seq<char>)) -> bool {
    exists|i: int|
        0 <= i < notes.len() && is_among(
            (#[trigger] notes[i]).note.identifier@,
            cards_in(notes[i]),
            id,
        )
}

/// The scope of a run holds exactly the cards that stand in its notes, each identity once, and
/// knows the tags of each of their notes.
pub proof fn law_scope_holds_the_cards_of_its_notes(notes: Seq<SourceNote>)
    ensures
        identities_differ(cards_of_notes(notes)),
        forall|id: (Seq<char>, Seq<char>)| #[trigger]
            in_scope(cards_of_notes(notes), id) <==> stands_in(notes, id),
        forall|id: (Seq<char>, Seq<char>)| #[trigger]
            in_scope(cards_of_notes(notes), id) ==> tags_of_notes(notes).contains_key(id.0),
    decreases notes.len(),
{
    if notes.len() > 0 {
        let front = notes.drop_last();
        let last = notes.last();
        law_scope_holds_the_cards_of_its_notes(front);
        lemma_with_cards(cards_of_notes(front), last.note.identifier@, cards_in(last));
        assert forall|id: (Seq<char>, Seq<char>)| #[trigger]
            in_scope(cards_of_notes(notes), id) <==> stands_in(notes, id) by {
            assert(in_scope(cards_of_notes(front), id) <==> stands_in(front, id));
            if stands_in(front, id) {
                let i = choose|i: int|
                    0 <= i < front.len() && is_among(
                        (#[trigger] front[i]).note.identifier@,
                        cards_in(front[i]),
                        id,
                    );
                assert(notes[i] == front[i]);
            }
            if is_among(last.note.identifier@, cards_in(last), id) {
                assert(notes[notes.len() - 1] == last);
            }
            if stands_in(notes, id) && !is_among(last.note.identifier@, cards_in(last), id) {
                let i = choose|i: int|
                    0 <= i < notes.len() && is_among(
                        (#[trigger] notes[i]).note.identifier@,
                        cards_in(notes[i]),
                        id,
                    );
                assert(front[i] == notes[i]);
            }
        }
        assert forall|id: (Seq<char>, Seq<char>)| #[trigger]
            in_scope(cards_of_notes(notes), id) implies tags_of_notes(notes).contains_key(
            id.0,
        ) by {
            assert(in_scope(cards_of_notes(front), id) ==> tags_of_notes(front).contains_key(
                id.0,
            ));
        }
    }
}

/// Finds the cards of some notes, and the tags of the notes.
pub fn collect_cards(notes: &Vec<SourceNote>) -> (scope: Scope)
    ensures
        scope@ == scope_of(notes@),
        identities_differ(scope@.cards),
{
    let mut cards: Vec<ScopedCard> = Vec::new();
    let mut tags: TextMap<Vec<String>> = TextMap::new();
    assert(scoped_models(cards@) == cards_of_notes(notes@.take(0)));
    assert(list_values(tags@) =~= tags_of_notes(notes@.take(0)));
    for i in 0..notes.len()
        invariant
            scoped_models(cards@) == cards_of_notes(notes@.take(i as int)),
            identities_differ(scoped_models(cards@)),
            list_values(tags@) == tags_of_notes(notes@.take(i as int)),
    {
        let source = &notes[i];
        proof {
            assert(notes@.take(i + 1).drop_last() == notes@.take(i as int));
            assert(notes@.take(i + 1).last() == *source);
        }
        let ghost tags_before = tags@;
        let id = source.note.identifier.clone();
        let note_tags = chars::clone_all(&source.note.tags);
        tags.insert(id, note_tags);
        assert(list_values(tags@) =~= list_values(tags_before).insert(
            id@,
            text::texts(source.note.tags@),
        ));
        let parsed = parser::parse_cards(&source.note, &source.body);
        let ghost before = scoped_models(cards@);
        let ghost found = cards_in(*source);
        let ghost id = source.note.identifier@;
        let ghost list = parsed@;
        assert(parser::card_models(list) == found);
        for card in it: parsed.into_iter()
            invariant
                it.seq() == list,
                parser::card_models(list) == found,
                id == source.note.identifier@,
                scoped_models(cards@) == with_cards(before, id, found.take(it.index())),
                identities_differ(scoped_models(cards@)),
        {
            let ghost previous = cards@;
            let ghost model = ScopedModel { note_id: id, card: card@ };
            proof {
                assert(found[it.index()] == card@);
                assert(found.take(it.index() + 1).drop_last() == found.take(it.index()));
                assert(found.take(it.index() + 1).last() == card@);
                lemma_with_card(scoped_models(cards@), model);
                lemma_position_of(scoped_models(cards@), identity(model));
            }
            let position = find_card(
                &cards,
                source.note.identifier.as_str(),
                card.fingerprint.as_str(),
            );
            let scoped = ScopedCard { note_id: source.note.identifier.clone(), card };
            match position {
                Some(p) => {
                    cards[p] = scoped;
                    assert(scoped_models(cards@) == scoped_models(previous).update(
                        p as int,
                        model,
                    ));
                },
                None => {
                    cards.push(scoped);
                    assert(scoped_models(cards@) == scoped_models(previous).push(model));
                },
            }
        }
        assert(found.take(found.len() as int) == found);
    }
    assert(notes@.take(notes@.len() as int) == notes@);
    Scope { cards, tags }
}

} // verus!
