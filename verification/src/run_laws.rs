//! What holds of each step of a run: what is decided, requested, recorded, saved and told.

use vstd::prelude::*;

use crate::apply;
use crate::apply::{ApplyActionModel, ApplyModel, PhaseModel};
use crate::auth_error;
use crate::bundle;
use crate::card_note;
use crate::config::ConfigModel;
use crate::messages;
use crate::messages::LineModel;
use crate::parser::CardModel;
use crate::paths;
use crate::render::ImageModel;
use crate::scope::{ScopeModel, ScopedModel};
use crate::state;
use crate::state::{KnownCard, StateModel};
use crate::sync;
use crate::sync::{AddModel, Decision, OptionsModel, PlanModel, UpdateModel};
use crate::text;
use crate::text_laws;

verus! {

// ── Decisions ────────────────────────────────────────────────────────────────

/// A card that is not tracked is added. One that is tracked is skipped if its digest is the one
/// that is recorded, unless all are to be updated; else its note is updated.
pub proof fn law_decisions_follow_the_digests(
    known: StateModel,
    key: Seq<char>,
    anki_id: u64,
    hash: Seq<char>,
    other: Seq<char>,
    force: bool,
)
    requires
        hash != other,
    ensures
        ({
            let without = StateModel { cards: known.cards.remove(key), ..known };
            let cards = known.cards.insert(key, anki_id);
            let recorded = StateModel { cards, hashes: known.hashes.insert(key, hash) };
            let unseen = StateModel { cards, hashes: known.hashes.remove(key) };
            &&& sync::decision_on(without, key, hash, force) is Add
            &&& sync::decision_on(recorded, key, hash, false) is Skip
            &&& sync::decision_on(recorded, key, hash, true) == Decision::Update(anki_id)
            &&& sync::decision_on(recorded, key, other, force) == Decision::Update(anki_id)
            &&& sync::decision_on(unseen, key, hash, force) == Decision::Update(anki_id)
        }),
{
}

/// The digest of a card in a run covers the tags of its note, the images that it shows and the
/// headings that it shows, and does not depend on other notes.
pub proof fn law_digests_cover_the_note_of_the_card(
    scope: ScopeModel,
    card: ScopedModel,
    tags: Seq<Seq<char>>,
    images: Seq<ImageModel>,
    config: ConfigModel,
)
    ensures
        ({
            let tagged = ScopeModel { tags: scope.tags.insert(card.note_id, tags), ..scope };
            let untagged = ScopeModel { tags: scope.tags.remove(card.note_id), ..scope };
            let with = |list: Seq<Seq<char>>|
                card_note::content_hash_of(
                    card.card,
                    card_note::tags_of(card.card, list, config),
                    card_note::images_of(card.card, images),
                    card_note::context_label(card.card, config),
                );
            &&& sync::hash_in(tagged, card, images, config) == with(tags)
            &&& sync::hash_in(untagged, card, images, config) == with(Seq::empty())
            &&& sync::tags_in(tagged, card, config) == card_note::tags_of(card.card, tags, config)
        }),
{
}

/// A run that is to be quiet tells nothing of its decisions; a dry run tells of each card that it
/// would change, and no other run does.
pub proof fn law_decisions_are_told_where_asked(
    plan: PlanModel,
    known: StateModel,
    options: OptionsModel,
)
    ensures
        ({
            let lines = sync::decision_lines(plan, known, options);
            let decision = sync::next_decision(plan, known, options);
            &&& !options.verbose && !options.progress && !options.dry_run ==> lines.len() == 0
            &&& decision is Skip ==> (lines.len() == 1 <==> options.verbose)
            &&& decision !is Skip ==> (lines.len() == 1 <==> options.dry_run || options.progress)
            &&& lines.len() <= 1
            &&& lines.len() == 1 ==> lines[0] is Out
            &&& lines.len() == 1 && decision !is Skip && options.dry_run ==> text::starts_with(
                lines[0]->Out_0,
                "[dry-run] would "@,
            )
            &&& lines.len() == 1 && !(decision !is Skip && options.dry_run) ==> tells_of(
                lines[0]->Out_0,
                plan.scope.cards[plan.next].card,
            )
        }),
{
    let card = plan.scope.cards[plan.next].card;
    lemma_lines_tell(
        (plan.next + 1) as nat,
        plan.scope.cards.len(),
        card,
        match sync::next_decision(plan, known, options) {
            Decision::Update(anki_id) => anki_id as nat,
            _ => 0,
        },
    );
}

/// The line ends with the deck and the beginning of the prompt of a card.
pub open spec fn tells_of(line: Seq<char>, card: CardModel) -> bool {
    exists|start: Seq<char>|
        line == #[trigger] (start + card.deck + " — "@ + card_note::preview_of(card))
}

proof fn lemma_lines_tell(number: nat, total: nat, card: CardModel, anki_id: nat)
    ensures
        ({
            let preview = card_note::preview_of(card);
            &&& tells_of(messages::skip_text(card.deck, preview), card)
            &&& tells_of(messages::prepare_update_text(number, total, card.deck, preview), card)
            &&& tells_of(messages::prepare_add_text(number, total, card.deck, preview), card)
            &&& tells_of(messages::update_text(card.deck, preview), card)
            &&& tells_of(messages::add_text(card.deck, preview), card)
            &&& text::starts_with(
                messages::would_update_text(anki_id, card.deck),
                "[dry-run] would "@,
            )
            &&& text::starts_with(
                messages::would_add_text(card.deck, card_note::kind_name(card)),
                "[dry-run] would "@,
            )
        }),
{
    let preview = card_note::preview_of(card);
    let n = text::decimal(number);
    let t = text::decimal(total);
    let update = "[prepare update] "@ + n + "/"@ + t + " "@;
    let add = "[prepare add]    "@ + n + "/"@ + t + " "@;
    assert(messages::skip_text(card.deck, preview) =~= "[skip]   "@ + card.deck + " — "@
        + preview);
    assert(messages::prepare_update_text(number, total, card.deck, preview) =~= update + card.deck
        + " — "@ + preview);
    assert(messages::prepare_add_text(number, total, card.deck, preview) =~= add + card.deck
        + " — "@ + preview);
    assert(messages::update_text(card.deck, preview) =~= "[update] "@ + card.deck + " — "@
        + preview);
    assert(messages::add_text(card.deck, preview) =~= "[add]    "@ + card.deck + " — "@ + preview);
    reveal_strlit("[dry-run] would ");
    reveal_strlit("[dry-run] would update Anki note ");
    reveal_strlit("[dry-run] would add card to deck ");
    let would = "[dry-run] would "@;
    assert(messages::would_update_text(anki_id, card.deck).subrange(0, would.len() as int)
        =~= would);
    assert(messages::would_add_text(card.deck, card_note::kind_name(card)).subrange(
        0,
        would.len() as int,
    ) =~= would);
}

/// The note of a card is told of where all is to be told and the progress is not.
pub proof fn law_notes_are_told_where_asked(
    card: CardModel,
    anki_id: Option<u64>,
    options: OptionsModel,
)
    ensures
        ({
            let lines = sync::note_lines(card, anki_id, options);
            &&& lines.len() == if options.verbose && !options.progress {
                1int
            } else {
                0
            }
            &&& lines.len() == 1 ==> (lines[0] matches LineModel::Out(line) && tells_of(line, card)
                && text::starts_with(
                line,
                if anki_id is Some {
                    "[update] "@
                } else {
                    "[add]    "@
                },
            ))
        }),
{
    lemma_lines_tell(0, 0, card, 0);
    let preview = card_note::preview_of(card);
    assert(messages::update_text(card.deck, preview).subrange(0, "[update] "@.len() as int)
        =~= "[update] "@);
    assert(messages::add_text(card.deck, preview).subrange(0, "[add]    "@.len() as int)
        =~= "[add]    "@);
}

// ── Batches ──────────────────────────────────────────────────────────────────

/// A batch is the beginning of what is left: all of it, or fifty. So the batches, one behind the
/// other, are the whole list.
pub proof fn law_batches_cover_the_list<A>(done: Seq<A>, rest: Seq<A>)
    requires
        rest.len() > 0,
    ensures
        ({
            let part = apply::batch(done + rest, done.len() as int);
            &&& 0 < part.len() <= 50
            &&& part == rest.take(part.len() as int)
            &&& part.len() == 50 || part == rest
            &&& apply::batch_end(done.len() as int, (done + rest).len()) == done.len() + part.len()
        }),
{
    let part = apply::batch(done + rest, done.len() as int);
    assert(part =~= rest.take(part.len() as int));
    if part.len() < 50 {
        assert(part =~= rest);
    }
}

/// Of a batch those are chosen whose note was found, or those whose note was not, in their order:
/// the reply about one more decides on one more.
pub proof fn law_replies_decide_one_by_one(
    list: Seq<UpdateModel>,
    found: Seq<bool>,
    reply: bool,
    wanted: bool,
)
    requires
        found.len() < list.len(),
    ensures
        apply::chosen(list, Seq::empty(), wanted) == Seq::<UpdateModel>::empty(),
        apply::chosen(list, found.push(reply), wanted) == if reply == wanted {
            apply::chosen(list, found, wanted).push(list[found.len() as int])
        } else {
            apply::chosen(list, found, wanted)
        },
{
    assert(found.push(reply).drop_last() =~= found);
}

/// Requests carry the number, the note and the deck of each card, in their order.
pub proof fn law_requests_carry_each_card(list: Seq<UpdateModel>, adds: Seq<AddModel>, i: int)
    requires
        0 <= i,
    ensures
        apply::update_requests(list).len() == list.len(),
        apply::moves_of(list).len() == list.len(),
        apply::cards_of(list).len() == list.len(),
        apply::notes_of(adds).len() == adds.len(),
        i < list.len() ==> apply::update_requests(list)[i].0 == list[i].anki_id
            && apply::update_requests(list)[i].1 == list[i].card.note,
        i < list.len() ==> apply::moves_of(list)[i].0 == list[i].anki_id && apply::moves_of(
            list,
        )[i].1 == list[i].card.note.deck,
        i < list.len() ==> apply::cards_of(list)[i] == list[i].card,
        i < adds.len() ==> apply::notes_of(adds)[i] == adds[i].note,
{
}

// ── Replies ──────────────────────────────────────────────────────────────────

/// A phrase stands in a text.
pub open spec fn stands_in(text: Seq<char>, phrase: Seq<char>) -> bool {
    exists|a: Seq<char>, b: Seq<char>| text == #[trigger] (a + phrase + b)
}

/// A text holds a phrase where the phrase stands in it.
pub proof fn lemma_stands_in(text: Seq<char>, phrase: Seq<char>)
    ensures
        text::contains(text, phrase) == stands_in(text, phrase),
{
    if stands_in(text, phrase) {
        let (a, b) = choose|a: Seq<char>, b: Seq<char>| text == #[trigger] (a + phrase + b);
        text_laws::law_texts_hold_what_stands_in_them(a, phrase, b, text);
    }
    if text::contains(text, phrase) {
        let i = choose|i: int| text::occurs_at(text, phrase, i);
        assert(text =~= text.take(i) + phrase + text.skip(i + phrase.len()));
    }
}

/// A message says that a note is missing where one of two phrases stands anywhere in it, in
/// letters of either case, and only then.
pub proof fn law_missing_notes_are_known_by_the_message(message: Seq<char>)
    ensures
        apply::says_not_found(message) <==> stands_in(text::lowercase(message), "not found"@)
            || stands_in(text::lowercase(message), "no note with id"@),
{
    lemma_stands_in(text::lowercase(message), "not found"@);
    lemma_stands_in(text::lowercase(message), "no note with id"@);
}

/// A message asks for a new sign-in where one of five phrases stands anywhere in it, in letters of
/// either case, and only then.
pub proof fn law_sign_in_is_asked_for_by_the_message(message: Seq<char>)
    ensures
        ({
            let lower = text::ascii_lowercase(message);
            auth_error::asks_for_sign_in(message) <==> stands_in(lower, "auth token not found"@)
                || stands_in(lower, "authentication_required"@) || stands_in(
                lower,
                "request needs authorization"@,
            ) || stands_in(lower, "421 misdirected request"@) || stands_in(
                lower,
                "401 unauthorized"@,
            )
        }),
{
    let lower = text::ascii_lowercase(message);
    lemma_stands_in(lower, "auth token not found"@);
    lemma_stands_in(lower, "authentication_required"@);
    lemma_stands_in(lower, "request needs authorization"@);
    lemma_stands_in(lower, "421 misdirected request"@);
    lemma_stands_in(lower, "401 unauthorized"@);
}

/// The reply names an error other than a missing note.
pub open spec fn fails(outcome: Option<Seq<char>>) -> bool {
    outcome matches Some(error) && !apply::says_not_found(error)
}

/// The first failure among some replies is one that names an error other than a missing note, and
/// no reply before it does. Where there is none, no reply does.
pub proof fn law_the_first_failure_counts(outcomes: Seq<Option<Seq<char>>>, j: int)
    requires
        0 <= j < outcomes.len(),
    ensures
        match apply::first_failure(outcomes) {
            Some(i) => 0 <= i < outcomes.len() && fails(outcomes[i]) && (j < i ==> !fails(
                outcomes[j],
            )),
            None => !fails(outcomes[j]),
        },
    decreases outcomes.len(),
{
    let front = outcomes.drop_last();
    if j < front.len() {
        law_the_first_failure_counts(front, j);
        assert(front[j] == outcomes[j]);
    } else if front.len() > 0 {
        law_the_first_failure_counts(front, 0);
    } else {
        assert(apply::first_failure(front) is None);
    }
    if let Some(i) = apply::first_failure(front) {
        assert(front[i] == outcomes[i]);
    }
}

/// A note was found where the reply names no error; each other reply is warned of, by the number
/// of the note.
pub proof fn law_missing_notes_are_warned_of(
    list: Seq<UpdateModel>,
    outcomes: Seq<Option<Seq<char>>>,
    outcome: Option<Seq<char>>,
)
    requires
        outcomes.len() < list.len(),
    ensures
        apply::found_in(Seq::empty()) == Seq::<bool>::empty(),
        apply::found_in(outcomes.push(outcome)) == apply::found_in(outcomes).push(outcome is None),
        apply::missing_lines(list, Seq::empty()) == Seq::<LineModel>::empty(),
        apply::missing_lines(list, outcomes.push(outcome)) == if outcome is None {
            apply::missing_lines(list, outcomes)
        } else {
            apply::missing_lines(list, outcomes).push(
                LineModel::Warning(
                    "bear-anki: note "@ + text::decimal(
                        list[outcomes.len() as int].anki_id as nat,
                    ) + " not found in Anki, re-adding"@,
                ),
            )
        },
{
    assert(apply::found_in(Seq::empty()) =~= Seq::<bool>::empty());
    assert(outcomes.push(outcome).drop_last() =~= outcomes);
    assert(apply::found_in(outcomes.push(outcome)) =~= apply::found_in(outcomes).push(
        outcome is None,
    ));
}

// ── What is recorded ─────────────────────────────────────────────────────────

/// The key of one of the first `count` cards.
pub open spec fn is_named(list: Seq<AddModel>, count: int, key: Seq<char>) -> bool {
    exists|i: int|
        0 <= i < count && i < list.len() && apply::pending_key(#[trigger] list[i]) == key
}

/// The key of a card is its note and its fingerprint, with a colon between them.
pub proof fn law_keys_name_the_note_and_the_card(card: AddModel)
    ensures
        apply::pending_key(card) == card.note_id + seq![':'] + card.fp,
        state::key_of(card.note_id, card.fp) == apply::pending_key(card),
{
    reveal_strlit(":");
    assert(":"@ =~= seq![':']);
}

/// The digests of updated cards are recorded under their keys, the last one where a key comes
/// twice; nothing else of the state changes.
pub proof fn law_updates_record_the_digests(
    known: StateModel,
    list: Seq<AddModel>,
    i: int,
    key: Seq<char>,
)
    requires
        0 <= i < list.len(),
        forall|j: int|
            i < j < list.len() ==> apply::pending_key(#[trigger] list[j]) != apply::pending_key(
                list[i],
            ),
        !is_named(list, list.len() as int, key),
    ensures
        ({
            let after = apply::with_hashes(known, list);
            let own = apply::pending_key(list[i]);
            &&& after.cards == known.cards
            &&& after.hashes.contains_key(own) && after.hashes[own] == list[i].hash
            &&& after.hashes.contains_key(key) == known.hashes.contains_key(key)
            &&& after.hashes[key] == known.hashes[key]
        }),
    decreases list.len(),
{
    let front = list.drop_last();
    let n = list.len() - 1;
    assert(list.last() == list[n]);
    lemma_other_hashes(known, list, key);
    if i < n {
        assert(front[i] == list[i]);
        assert(!is_named(front, n, key)) by {
            if is_named(front, n, key) {
                let j = choose|j: int|
                    0 <= j < n && j < front.len() && apply::pending_key(#[trigger] front[j])
                        == key;
                assert(apply::pending_key(list[j]) == key);
            }
        }
        law_updates_record_the_digests(known, front, i, key);
        assert(apply::pending_key(list[n]) != apply::pending_key(list[i]));
    }
}

proof fn lemma_other_hashes(known: StateModel, list: Seq<AddModel>, key: Seq<char>)
    requires
        !is_named(list, list.len() as int, key),
    ensures
        ({
            let after = apply::with_hashes(known, list);
            &&& after.cards == known.cards
            &&& after.hashes.contains_key(key) == known.hashes.contains_key(key)
            &&& after.hashes[key] == known.hashes[key]
        }),
    decreases list.len(),
{
    if list.len() > 0 {
        let front = list.drop_last();
        let n = list.len() - 1;
        assert(list.last() == list[n]);
        assert(apply::pending_key(list[n]) != key);
        assert(!is_named(front, n, key)) by {
            if is_named(front, n, key) {
                let j = choose|j: int|
                    0 <= j < n && j < front.len() && apply::pending_key(#[trigger] front[j])
                        == key;
                assert(apply::pending_key(list[j]) == key);
            }
        }
        lemma_other_hashes(known, front, key);
    }
}

/// Added cards are recorded under their keys with the numbers of their notes, in the order of the
/// reply, and with their digests; nothing else of the state changes.
pub proof fn law_additions_record_the_notes(
    known: StateModel,
    list: Seq<AddModel>,
    ids: Seq<u64>,
    count: nat,
    i: int,
    key: Seq<char>,
)
    requires
        count <= list.len(),
        count <= ids.len(),
        0 <= i < count,
        forall|j: int|
            i < j < count ==> apply::pending_key(#[trigger] list[j]) != apply::pending_key(list[i]),
        !is_named(list, count as int, key),
    ensures
        ({
            let after = apply::with_notes(known, list, ids, count);
            let own = apply::pending_key(list[i]);
            &&& after.cards.contains_key(own) && after.cards[own] == ids[i]
            &&& after.hashes.contains_key(own) && after.hashes[own] == list[i].hash
            &&& after.hashes.contains_key(key) == known.hashes.contains_key(key)
            &&& after.hashes[key] == known.hashes[key]
            &&& after.cards.contains_key(key) == known.cards.contains_key(key)
            &&& after.cards[key] == known.cards[key]
        }),
    decreases count,
{
    let n = count - 1;
    lemma_other_notes(known, list, ids, count, key);
    if i < n {
        assert(!is_named(list, n as int, key)) by {
            if is_named(list, n as int, key) {
                let j = choose|j: int|
                    0 <= j < n && j < list.len() && apply::pending_key(#[trigger] list[j]) == key;
                assert(apply::pending_key(list[j]) == key);
            }
        }
        law_additions_record_the_notes(known, list, ids, n as nat, i, key);
        assert(apply::pending_key(list[n]) != apply::pending_key(list[i]));
    }
}

proof fn lemma_other_notes(
    known: StateModel,
    list: Seq<AddModel>,
    ids: Seq<u64>,
    count: nat,
    key: Seq<char>,
)
    requires
        count <= list.len(),
        !is_named(list, count as int, key),
    ensures
        ({
            let after = apply::with_notes(known, list, ids, count);
            &&& after.hashes.contains_key(key) == known.hashes.contains_key(key)
            &&& after.hashes[key] == known.hashes[key]
            &&& after.cards.contains_key(key) == known.cards.contains_key(key)
            &&& after.cards[key] == known.cards[key]
        }),
    decreases count,
{
    if count > 0 {
        let n = count - 1;
        assert(apply::pending_key(list[n]) != key);
        assert(!is_named(list, n as int, key)) by {
            if is_named(list, n as int, key) {
                let j = choose|j: int|
                    0 <= j < n && j < list.len() && apply::pending_key(#[trigger] list[j]) == key;
                assert(apply::pending_key(list[j]) == key);
            }
        }
        lemma_other_notes(known, list, ids, n as nat, key);
    }
}

/// Deleted cards are forgotten, their notes as well as their digests; nothing else of the state
/// changes.
pub proof fn law_deletions_forget_the_cards(
    known: StateModel,
    list: Seq<KnownCard>,
    key: Seq<char>,
)
    ensures
        ({
            let after = apply::without(known, list);
            let named = exists|i: int|
                0 <= i < list.len() && state::key_of((#[trigger] list[i]).note_id, list[i].fp)
                    == key;
            &&& named ==> !after.cards.contains_key(key) && !after.hashes.contains_key(key)
            &&& !named ==> {
                &&& after.hashes.contains_key(key) == known.hashes.contains_key(key)
                &&& after.hashes[key] == known.hashes[key]
                &&& after.cards.contains_key(key) == known.cards.contains_key(key)
                &&& after.cards[key] == known.cards[key]
            }
        }),
    decreases list.len(),
{
    if list.len() > 0 {
        let front = list.drop_last();
        let n = list.len() - 1;
        law_deletions_forget_the_cards(known, front, key);
        assert(list.last() == list[n]);
        if exists|i: int|
            0 <= i < front.len() && state::key_of((#[trigger] front[i]).note_id, front[i].fp)
                == key {
            let i = choose|i: int|
                0 <= i < front.len() && state::key_of((#[trigger] front[i]).note_id, front[i].fp)
                    == key;
            assert(state::key_of(list[i].note_id, list[i].fp) == key);
        }
        if exists|i: int|
            0 <= i < list.len() && state::key_of((#[trigger] list[i]).note_id, list[i].fp)
                == key {
            let i = choose|i: int|
                0 <= i < list.len() && state::key_of((#[trigger] list[i]).note_id, list[i].fp)
                    == key;
            if i < n {
                assert(state::key_of(front[i].note_id, front[i].fp) == key);
            }
        }
    }
}

/// A state file records each card under its key; where a key comes twice the last entry counts.
pub proof fn law_the_last_entry_of_a_key_counts(entries: Seq<(String, u64)>, i: int)
    requires
        0 <= i < entries.len(),
        forall|j: int| i < j < entries.len() ==> (#[trigger] entries[j]).0@ != entries[i].0@,
    ensures
        state::entry_ids(entries).contains_key(entries[i].0@),
        state::entry_ids(entries)[entries[i].0@] == entries[i].1,
    decreases entries.len(),
{
    let front = entries.drop_last();
    assert(entries.last() == entries[entries.len() - 1]);
    if i < front.len() {
        assert(front[i] == entries[i]);
        law_the_last_entry_of_a_key_counts(front, i);
    }
}

// ── Saving ───────────────────────────────────────────────────────────────────

/// What is recorded may not be saved yet.
pub open spec fn may_be_unsaved(phase: PhaseModel) -> bool {
    match phase {
        PhaseModel::Readding(_, _) => true,
        PhaseModel::Readded(_) => true,
        PhaseModel::Updated(_) => true,
        PhaseModel::Added(_) => true,
        _ => false,
    }
}

/// What has last been saved once a step is done.
pub open spec fn saved_after(
    apply: ApplyModel,
    known: StateModel,
    listed: Seq<KnownCard>,
    options: OptionsModel,
    saved: StateModel,
) -> StateModel {
    let outcome = apply::apply_step(apply, known, listed, options);
    if outcome.action is Save {
        outcome.known
    } else {
        saved
    }
}

/// What is recorded is saved before anything else is asked of Anki, but for the notes of a batch
/// that were missing; and a run is done with all saved. So a run that breaks off has lost nothing
/// of what it had done before its last batch.
pub proof fn law_changes_are_saved_batch_by_batch(
    apply: ApplyModel,
    known: StateModel,
    listed: Seq<KnownCard>,
    options: OptionsModel,
    saved: StateModel,
)
    requires
        may_be_unsaved(apply.phase) || saved == known,
    ensures
        ({
            let outcome = apply::apply_step(apply, known, listed, options);
            let after = saved_after(apply, known, listed, options, saved);
            &&& may_be_unsaved(outcome.apply.phase) || after == outcome.known
            &&& match outcome.action {
                ApplyActionModel::Continue => true,
                ApplyActionModel::Save => true,
                ApplyActionModel::AddNotes(_) => apply.phase is Readding || saved == known,
                _ => saved == known && outcome.known == known,
            }
            &&& match apply.phase {
                PhaseModel::Readded(_) => outcome.action is Save,
                PhaseModel::Updated(_) => outcome.action is Save,
                PhaseModel::Added(_) => outcome.action is Save,
                PhaseModel::Deleted(_) => outcome.action is Save,
                PhaseModel::Finishing => outcome.action is Save <==> !options.dry_run,
                _ => outcome.action !is Save,
            }
            &&& outcome.action is Done ==> apply.phase is Done
        }),
{
}

/// A run that is to tell no progress tells nothing, but for the deletions of a dry run.
pub proof fn law_progress_is_told_where_asked(
    apply: ApplyModel,
    known: StateModel,
    listed: Seq<KnownCard>,
    options: OptionsModel,
)
    ensures
        ({
            let lines = apply::apply_step(apply, known, listed, options).lines;
            &&& lines.len() <= 1
            &&& !options.progress && !(options.dry_run && apply.phase is Clearing) ==> lines.len()
                == 0
            &&& options.progress ==> match apply.phase {
                PhaseModel::UpdateDecks(i) => lines == if i >= apply.updates.len()
                    && apply.updates.len() > 0 {
                    seq![
                        LineModel::Out(
                            "Updating "@ + text::decimal(apply.updates.len())
                                + " Anki note(s) in batches of up to "@ + text::decimal(50)
                                + "..."@,
                        ),
                    ]
                } else {
                    Seq::empty()
                },
                PhaseModel::AddDecks(i) => lines == if i >= apply.adds.len() && apply.adds.len()
                    > 0 {
                    seq![
                        LineModel::Out(
                            "Adding "@ + text::decimal(apply.adds.len())
                                + " Anki note(s) in batches of up to "@ + text::decimal(50)
                                + "..."@,
                        ),
                    ]
                } else {
                    Seq::empty()
                },
                PhaseModel::UpdateSaved(from) => lines == seq![
                    LineModel::Out(
                        "[update] "@ + text::decimal(
                            apply::batch_end(from, apply.updates.len()) as nat,
                        ) + "/"@ + text::decimal(apply.updates.len()) + " Anki note(s) updated"@,
                    ),
                ],
                PhaseModel::AddSaved(from) => lines == seq![
                    LineModel::Out(
                        "[add]    "@ + text::decimal(
                            apply::batch_end(from, apply.adds.len()) as nat,
                        ) + "/"@ + text::decimal(apply.adds.len()) + " Anki note(s) added"@,
                    ),
                ],
                PhaseModel::Clearing => true,
                _ => lines.len() == 0,
            }
            &&& apply.phase is Clearing ==> ({
                let stale = listed.filter(apply::is_stale(apply.scope, options)).len();
                lines == if stale == 0 {
                    Seq::empty()
                } else if options.dry_run {
                    seq![
                        LineModel::Out(
                            "[dry-run] would delete "@ + text::decimal(stale) + " Anki note(s)"@,
                        ),
                    ]
                } else if options.progress {
                    seq![
                        LineModel::Out(
                            "[delete] "@ + text::decimal(stale) + " stale Anki note(s)"@,
                        ),
                    ]
                } else {
                    Seq::empty()
                }
            })
        }),
{
}

// ── Messages ─────────────────────────────────────────────────────────────────

/// What is told of one card names the deck and what is done; numbers come in the order of the
/// place and the total.
pub proof fn law_messages_name_the_card(
    deck: Seq<char>,
    rest: Seq<char>,
    anki_id: nat,
    number: nat,
    total: nat,
)
    ensures
        messages::skip_text(deck, rest) == "[skip]   "@ + (deck + " — "@ + rest),
        messages::update_text(deck, rest) == "[update] "@ + (deck + " — "@ + rest),
        messages::add_text(deck, rest) == "[add]    "@ + (deck + " — "@ + rest),
        messages::prepare_update_text(number, total, deck, rest) == "[prepare update] "@ + (
        text::decimal(number) + "/"@ + text::decimal(total)) + " "@ + (deck + " — "@ + rest),
        messages::prepare_add_text(number, total, deck, rest) == "[prepare add]    "@ + (
        text::decimal(number) + "/"@ + text::decimal(total)) + " "@ + (deck + " — "@ + rest),
        messages::would_update_text(anki_id, deck) == "[dry-run] would update Anki note "@ + (
        text::decimal(anki_id) + " (deck: "@ + deck + ")"@),
        messages::would_add_text(deck, rest) == "[dry-run] would add card to deck "@ + (
        messages::debug_text(deck) + " ("@ + rest + ")"@),
{
    let tail = deck + " — "@ + rest;
    let numbers = text::decimal(number) + "/"@ + text::decimal(total);
    assert(messages::skip_text(deck, rest) =~= "[skip]   "@ + tail);
    assert(messages::update_text(deck, rest) =~= "[update] "@ + tail);
    assert(messages::add_text(deck, rest) =~= "[add]    "@ + tail);
    assert(messages::prepare_update_text(number, total, deck, rest) =~= "[prepare update] "@
        + numbers + " "@ + tail);
    assert(messages::prepare_add_text(number, total, deck, rest) =~= "[prepare add]    "@ + numbers
        + " "@ + tail);
    assert(messages::would_update_text(anki_id, deck) =~= "[dry-run] would update Anki note "@ + (
    text::decimal(anki_id) + " (deck: "@ + deck + ")"@));
    assert(messages::would_add_text(deck, rest) =~= "[dry-run] would add card to deck "@ + (
    messages::debug_text(deck) + " ("@ + rest + ")"@));
}

/// What is told of a whole run holds its counts: notes before cards, what is done before the
/// total, and a total before the size of its batches.
pub proof fn law_messages_hold_the_counts(done: nat, total: nat)
    ensures
        messages::found_text(done, total) == "Found "@ + (text::decimal(done) + " note(s), "@
            + text::decimal(total)) + " card(s) in sync scope."@,
        messages::updating_text(total, done) == "Updating "@ + (text::decimal(total)
            + " Anki note(s) in batches of up to "@ + text::decimal(done)) + "..."@,
        messages::adding_text(total, done) == "Adding "@ + (text::decimal(total)
            + " Anki note(s) in batches of up to "@ + text::decimal(done)) + "..."@,
        messages::updated_text(done, total) == "[update] "@ + (text::decimal(done) + "/"@
            + text::decimal(total)) + " Anki note(s) updated"@,
        messages::added_text(done, total) == "[add]    "@ + (text::decimal(done) + "/"@
            + text::decimal(total)) + " Anki note(s) added"@,
        messages::deleting_text(total) == "[delete] "@ + (text::decimal(total)
            + " stale Anki note(s)"@),
        messages::would_delete_text(total) == "[dry-run] would delete "@ + (text::decimal(total)
            + " Anki note(s)"@),
{
    let a = text::decimal(done);
    let b = text::decimal(total);
    assert(messages::found_text(done, total) =~= "Found "@ + (a + " note(s), "@ + b)
        + " card(s) in sync scope."@);
    assert(messages::updating_text(total, done) =~= "Updating "@ + (b
        + " Anki note(s) in batches of up to "@ + a) + "..."@);
    assert(messages::adding_text(total, done) =~= "Adding "@ + (b
        + " Anki note(s) in batches of up to "@ + a) + "..."@);
    assert(messages::updated_text(done, total) =~= "[update] "@ + (a + "/"@ + b)
        + " Anki note(s) updated"@);
    assert(messages::added_text(done, total) =~= "[add]    "@ + (a + "/"@ + b)
        + " Anki note(s) added"@);
    assert(messages::deleting_text(total) =~= "[delete] "@ + (b + " stale Anki note(s)"@));
    assert(messages::would_delete_text(total) =~= "[dry-run] would delete "@ + (b
        + " Anki note(s)"@));
}

/// Warnings name what they are about: a file and the reason, the wanted words, or a note by its
/// title and its identifier. The words are missed only where no note holds them.
pub proof fn law_warnings_name_their_subject(
    name: Seq<char>,
    reason: Seq<char>,
    title: &str,
    found: usize,
    warning: Option<String>,
    none: Option<String>,
)
    requires
        call_ensures(messages::no_match_warning, (Some(title), found), warning),
        call_ensures(messages::no_match_warning, (None::<&str>, found), none),
    ensures
        messages::upload_failed_text(name, reason) == "bear-anki: failed to upload image "@ + (name
            + ": "@ + reason),
        messages::malformed_text(name, reason) == "bear-anki: skipping malformed callout in "@ + (
        messages::debug_text(name) + " ("@ + reason + ")"@),
        messages::no_match_text(name) == "bear-anki: no notes found matching "@
            + messages::debug_text(name),
        none is None,
        warning is Some <==> found == 0,
        warning matches Some(line) ==> line@ == "bear-anki: no notes found matching "@
            + messages::debug_text(title@),
{
    assert(messages::upload_failed_text(name, reason) =~= "bear-anki: failed to upload image "@ + (
    name + ": "@ + reason));
    assert(messages::malformed_text(name, reason) =~= "bear-anki: skipping malformed callout in "@
        + (messages::debug_text(name) + " ("@ + reason + ")"@));
}

// ── Files ────────────────────────────────────────────────────────────────────

/// Parts of a path are parted by one slash.
pub proof fn law_paths_are_parted_by_one_slash(base: Seq<char>, part: Seq<char>)
    ensures
        paths::joined(Seq::empty(), part) == part,
        paths::joined(base.push('/'), part) == base.push('/') + part,
        base.len() > 0 && base.last() != '/' ==> paths::joined(base, part) == paths::joined(
            base.push('/'),
            part,
        ),
{
    reveal_strlit("/");
    assert("/"@ =~= seq!['/']);
    assert(paths::joined(Seq::empty(), part) =~= part);
    if base.len() > 0 && base.last() != '/' {
        assert(base + "/"@ + part =~= base.push('/') + part);
    }
}

/// The files of the application stand below the home directory, with or without a slash at its
/// end.
pub proof fn law_files_stand_below_the_home_directory(home: Seq<char>, name: Seq<char>)
    requires
        home.len() > 0,
        home.last() != '/',
    ensures
        paths::support_path(home, name) == home + "/Library/Application Support/bear-anki/"@
            + name,
        paths::support_path(home.push('/'), name) == paths::support_path(home, name),
{
    reveal_strlit("/");
    reveal_strlit("Library");
    reveal_strlit("Application Support");
    reveal_strlit("bear-anki");
    reveal_strlit("/Library/Application Support/bear-anki/");
    let a = paths::joined(home, "Library"@);
    assert(a =~= home + "/"@ + "Library"@);
    assert(paths::joined(home.push('/'), "Library"@) =~= a);
    assert(a.last() == 'y');
    let b = paths::joined(a, "Application Support"@);
    assert(b =~= a + "/"@ + "Application Support"@);
    assert(b.last() == 't');
    let c = paths::joined(b, "bear-anki"@);
    assert(c =~= b + "/"@ + "bear-anki"@);
    assert(c.last() == 'i');
    assert("/"@ + "Library"@ + "/"@ + "Application Support"@ + "/"@ + "bear-anki"@ + "/"@
        =~= "/Library/Application Support/bear-anki/"@);
    assert(paths::support_path(home, name) =~= home + "/Library/Application Support/bear-anki/"@
        + name);
}

/// The folder of the applications is the one behind the first flag that names one; without such a
/// flag, or with nothing behind it, it is the usual one below the home directory.
pub proof fn law_the_first_flag_names_the_folder(
    a: Seq<Seq<char>>,
    dir: Seq<char>,
    b: Seq<Seq<char>>,
    home: Option<Seq<char>>,
)
    requires
        !a.contains("--apps-dir"@),
    ensures
        bundle::apps_dir_of(a + seq!["--apps-dir"@, dir] + b, home) == dir,
        bundle::apps_dir_of(a, Some(dir)) == paths::joined(dir, "Applications"@),
        bundle::apps_dir_of(a.push("--apps-dir"@), Some(dir)) == paths::joined(
            dir,
            "Applications"@,
        ),
        bundle::apps_dir_of(a, None) == "./Applications"@,
{
    let args = a + seq!["--apps-dir"@, dir] + b;
    lemma_flag(a, seq!["--apps-dir"@, dir] + b, 0);
    assert(a + (seq!["--apps-dir"@, dir] + b) =~= args);
    assert(args[a.len() as int + 1] == dir);
    lemma_flag(a, Seq::empty(), 0);
    assert(a + Seq::empty() =~= a);
    lemma_flag(a, seq!["--apps-dir"@], 0);
    assert(a + seq!["--apps-dir"@] =~= a.push("--apps-dir"@));
    reveal_strlit(".");
    reveal_strlit("/");
    reveal_strlit("Applications");
    reveal_strlit("./Applications");
    assert("."@ + "/"@ + "Applications"@ =~= "./Applications"@);
}

proof fn lemma_flag(a: Seq<Seq<char>>, b: Seq<Seq<char>>, start: int)
    requires
        0 <= start <= a.len(),
        !a.contains("--apps-dir"@),
        b.len() > 0 ==> b[0] == "--apps-dir"@,
    ensures
        bundle::folder_flag(a + b, start) == if b.len() > 1 {
            Some(a.len() as int)
        } else {
            None
        },
    decreases a.len() - start,
{
    let all = a + b;
    if start < a.len() {
        assert(all[start] == a[start]);
        assert(a.contains(a[start]));
        lemma_flag(a, b, start + 1);
    } else if b.len() > 1 {
        assert(all[start] == b[0]);
    }
}

/// The file of an icon is named by its size in both directions, with a mark for screens of double
/// resolution.
pub proof fn law_icons_are_named_by_their_size(size: nat)
    ensures
        bundle::icon_name_of(size, false) == "icon_"@ + text::decimal(size) + seq!['x']
            + text::decimal(size) + ".png"@,
        bundle::icon_name_of(size, true) == "icon_"@ + text::decimal(size) + seq!['x']
            + text::decimal(size) + "@2x.png"@,
{
    reveal_strlit("x");
    reveal_strlit("@2x");
    reveal_strlit(".png");
    reveal_strlit("@2x.png");
    assert("x"@ =~= seq!['x']);
    assert("@2x"@ + ".png"@ =~= "@2x.png"@);
    let start = "icon_"@ + text::decimal(size) + seq!['x'] + text::decimal(size);
    assert(bundle::icon_name_of(size, true) =~= start + ("@2x"@ + ".png"@));
    assert(bundle::icon_name_of(size, false) =~= start + ".png"@);
}

} // verus!
