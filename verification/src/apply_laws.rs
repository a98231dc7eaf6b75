//! What holds of every run once its changes are made.

use vstd::prelude::*;

use crate::apply;
use crate::apply::{ApplyActionModel, ApplyModel, PhaseModel};
use crate::scope;
use crate::scope::{ScopeModel, ScopedModel, SourceNote};
use crate::state;
use crate::state::{KnownCard, StateModel};
use crate::sync;
use crate::sync::{AddModel, OptionsModel, PlanModel, UpdateModel};
use crate::sync_laws;
use crate::sync_laws::PlanEvent;

verus! {

// ── Events ───────────────────────────────────────────────────────────────────

/// Something that happens while the changes are made.
pub enum ApplyEvent {
    /// The last step went well, and the next one follows. The tracked cards stand in this order.
    Step(Seq<KnownCard>),
    /// The outcomes of a batch of updates are known.
    Outcomes(Seq<Option<Seq<char>>>),
    /// The numbers of some added notes are known.
    Ids(Seq<u64>),
}

/// The event can happen in a run that succeeds: a reply is awaited and speaks of every note of
/// its request, and no update fails.
pub open spec fn fits(apply: ApplyModel, known: StateModel, event: ApplyEvent) -> bool {
    match event {
        ApplyEvent::Step(listed) => state::lists_known(listed, known),
        ApplyEvent::Outcomes(outcomes) => {
            &&& apply::awaits_outcomes(apply)
            &&& outcomes.len() == apply::batch(apply.updates, apply.phase->Updating_0).len()
            &&& apply::first_failure(outcomes) is None
        },
        ApplyEvent::Ids(ids) => apply::awaits_ids(apply) && ids.len() == apply::being_added(
            apply,
        ).len(),
    }
}

/// How far the changes are after an event, and what is recorded then.
pub open spec fn after_event(
    apply: ApplyModel,
    known: StateModel,
    options: OptionsModel,
    event: ApplyEvent,
) -> (ApplyModel, StateModel) {
    match event {
        ApplyEvent::Step(listed) => {
            let outcome = apply::apply_step(apply, known, listed, options);
            (outcome.apply, outcome.known)
        },
        ApplyEvent::Outcomes(outcomes) => (
            ApplyModel {
                phase: PhaseModel::Moving(apply.phase->Updating_0, apply::found_in(outcomes)),
                ..apply
            },
            known,
        ),
        ApplyEvent::Ids(ids) => (
            apply::after_ids(apply),
            apply::with_notes(known, apply::being_added(apply), ids, ids.len()),
        ),
    }
}

/// How far the changes are after some events, if each of them can happen, and what is recorded
/// then.
pub open spec fn applied(
    apply: ApplyModel,
    known: StateModel,
    options: OptionsModel,
    events: Seq<ApplyEvent>,
) -> Option<(ApplyModel, StateModel)>
    decreases events.len(),
{
    if events.len() == 0 {
        Some((apply, known))
    } else {
        match applied(apply, known, options, events.drop_last()) {
            Some(before) => if fits(before.0, before.1, events.last()) {
                Some(after_event(before.0, before.1, options, events.last()))
            } else {
                None
            },
            None => None,
        }
    }
}

// ── Cards and their keys ─────────────────────────────────────────────────────

/// No note has a colon in its identifier.
pub open spec fn ids_are_plain(cards: Seq<ScopedModel>) -> bool {
    forall|j: int| 0 <= j < cards.len() ==> !(#[trigger] cards[j]).note_id.contains(':')
}

/// The pending card is one of the run, with the digest that it is to have.
pub open spec fn agrees(
    pending: AddModel,
    cards: Seq<ScopedModel>,
    targets: Seq<Seq<char>>,
) -> bool {
    exists|j: int|
        0 <= j < cards.len() && sync_laws::stands_for(
            pending,
            #[trigger] cards[j],
            targets[j],
        )
}

/// All the pending cards are cards of the run, with the digests that they are to have.
pub open spec fn all_agree(
    list: Seq<AddModel>,
    cards: Seq<ScopedModel>,
    targets: Seq<Seq<char>>,
) -> bool {
    forall|x: int| 0 <= x < list.len() ==> agrees(#[trigger] list[x], cards, targets)
}

/// A card of the run is in Anki, with the digest that it is to have.
pub open spec fn settled(
    known: StateModel,
    cards: Seq<ScopedModel>,
    targets: Seq<Seq<char>>,
    j: int,
) -> bool {
    sync_laws::is_settled(known, cards[j], targets[j])
}

/// Different cards have different keys.
pub proof fn lemma_keys_differ(cards: Seq<ScopedModel>, i: int, j: int)
    requires
        scope::identities_differ(cards),
        ids_are_plain(cards),
        0 <= i < cards.len(),
        0 <= j < cards.len(),
        sync::scoped_key(cards[i]) == sync::scoped_key(cards[j]),
    ensures
        i == j,
{
    state::law_keys_tell_cards_apart(
        cards[i].note_id,
        cards[i].card.fingerprint,
        cards[j].note_id,
        cards[j].card.fingerprint,
    );
    if i < j {
        assert(scope::identity(cards[i]) != scope::identity(cards[j]));
    } else if j < i {
        assert(scope::identity(cards[j]) != scope::identity(cards[i]));
    }
}

/// A pending card has the key of the card that it stands for, and no other.
proof fn lemma_pending_key(
    pending: AddModel,
    cards: Seq<ScopedModel>,
    targets: Seq<Seq<char>>,
    j: int,
)
    requires
        scope::identities_differ(cards),
        ids_are_plain(cards),
        agrees(pending, cards, targets),
        0 <= j < cards.len(),
    ensures
        apply::pending_key(pending) == sync::scoped_key(cards[j]) ==> sync_laws::stands_for(
            pending,
            cards[j],
            targets[j],
        ),
        sync_laws::stands_for(pending, cards[j], targets[j]) ==> apply::pending_key(pending)
            == sync::scoped_key(cards[j]),
{
    let i = choose|i: int|
        0 <= i < cards.len() && sync_laws::stands_for(pending, #[trigger] cards[i], targets[i]);
    if apply::pending_key(pending) == sync::scoped_key(cards[j]) {
        lemma_keys_differ(cards, i, j);
    }
}

proof fn lemma_with_hashes(
    known: StateModel,
    list: Seq<AddModel>,
    cards: Seq<ScopedModel>,
    targets: Seq<Seq<char>>,
)
    requires
        scope::identities_differ(cards),
        ids_are_plain(cards),
        all_agree(list, cards, targets),
    ensures
        apply::with_hashes(known, list).cards == known.cards,
        forall|j: int|
            0 <= j < cards.len() && settled(known, cards, targets, j) ==> #[trigger] settled(
                apply::with_hashes(known, list),
                cards,
                targets,
                j,
            ),
        forall|x: int, j: int|
            0 <= x < list.len() && 0 <= j < cards.len() && known.cards.contains_key(
                sync::scoped_key(cards[j]),
            ) && #[trigger] sync_laws::stands_for(list[x], cards[j], targets[j]) ==> settled(
                apply::with_hashes(known, list),
                cards,
                targets,
                j,
            ),
    decreases list.len(),
{
    if list.len() > 0 {
        let front = list.drop_last();
        let before = apply::with_hashes(known, front);
        let after = apply::with_hashes(known, list);
        assert forall|x: int| 0 <= x < front.len() implies agrees(
            #[trigger] front[x],
            cards,
            targets,
        ) by {
            assert(agrees(list[x], cards, targets));
        }
        lemma_with_hashes(known, front, cards, targets);
        assert forall|j: int| 0 <= j < cards.len() && settled(before, cards, targets, j) implies
            #[trigger] settled(after, cards, targets, j) by {
            assert(agrees(list[list.len() - 1], cards, targets));
            lemma_pending_key(list.last(), cards, targets, j);
        }
        assert forall|x: int, j: int|
            0 <= x < list.len() && 0 <= j < cards.len() && known.cards.contains_key(
                sync::scoped_key(cards[j]),
            ) && #[trigger] sync_laws::stands_for(list[x], cards[j], targets[j]) implies settled(
            after,
            cards,
            targets,
            j,
        ) by {
            assert(agrees(list[x], cards, targets));
            lemma_pending_key(list[x], cards, targets, j);
            if x < front.len() {
                assert(sync_laws::stands_for(front[x], cards[j], targets[j]));
                assert(settled(before, cards, targets, j));
            }
        }
        assert forall|j: int| 0 <= j < cards.len() && settled(known, cards, targets, j) implies
            #[trigger] settled(after, cards, targets, j) by {
            assert(settled(before, cards, targets, j));
        }
    }
}

proof fn lemma_with_notes(
    known: StateModel,
    list: Seq<AddModel>,
    ids: Seq<u64>,
    count: nat,
    cards: Seq<ScopedModel>,
    targets: Seq<Seq<char>>,
)
    requires
        scope::identities_differ(cards),
        ids_are_plain(cards),
        all_agree(list, cards, targets),
        count <= list.len(),
    ensures
        forall|key: Seq<char>| #[trigger]
            known.cards.contains_key(key) ==> apply::with_notes(
                known,
                list,
                ids,
                count,
            ).cards.contains_key(key),
        forall|j: int|
            0 <= j < cards.len() && settled(known, cards, targets, j) ==> #[trigger] settled(
                apply::with_notes(known, list, ids, count),
                cards,
                targets,
                j,
            ),
        forall|x: int, j: int|
            0 <= x < count && 0 <= j < cards.len() && #[trigger] sync_laws::stands_for(
                list[x],
                cards[j],
                targets[j],
            ) ==> settled(apply::with_notes(known, list, ids, count), cards, targets, j),
    decreases count,
{
    if count > 0 {
        let before = apply::with_notes(known, list, ids, (count - 1) as nat);
        let after = apply::with_notes(known, list, ids, count);
        let card = list[count - 1];
        lemma_with_notes(known, list, ids, (count - 1) as nat, cards, targets);
        assert forall|j: int| 0 <= j < cards.len() && settled(before, cards, targets, j) implies
            #[trigger] settled(after, cards, targets, j) by {
            assert(agrees(list[count - 1], cards, targets));
            lemma_pending_key(card, cards, targets, j);
        }
        assert forall|x: int, j: int|
            0 <= x < count && 0 <= j < cards.len() && #[trigger] sync_laws::stands_for(
                list[x],
                cards[j],
                targets[j],
            ) implies settled(after, cards, targets, j) by {
            assert(agrees(list[x], cards, targets));
            lemma_pending_key(list[x], cards, targets, j);
            if x < count - 1 {
                assert(settled(before, cards, targets, j));
            }
        }
        assert forall|j: int| 0 <= j < cards.len() && settled(known, cards, targets, j) implies
            #[trigger] settled(after, cards, targets, j) by {
            assert(settled(before, cards, targets, j));
        }
        assert forall|key: Seq<char>| #[trigger] known.cards.contains_key(key) implies
            after.cards.contains_key(key) by {
            assert(before.cards.contains_key(key));
        }
    }
}

/// One of the listed cards has that key.
pub open spec fn names_key(list: Seq<KnownCard>, key: Seq<char>) -> bool {
    exists|x: int|
        0 <= x < list.len() && state::key_of((#[trigger] list[x]).note_id, list[x].fp) == key
}

/// The cards of a list are forgotten, and no others.
pub proof fn lemma_without(known: StateModel, list: Seq<KnownCard>, key: Seq<char>)
    ensures
        apply::without(known, list).cards.contains_key(key) <==> known.cards.contains_key(key)
            && !names_key(list, key),
        apply::without(known, list).hashes.contains_key(key) <==> known.hashes.contains_key(key)
            && !names_key(list, key),
        !names_key(list, key) && known.cards.contains_key(key) ==> apply::without(
            known,
            list,
        ).cards[key] == known.cards[key],
        !names_key(list, key) && known.hashes.contains_key(key) ==> apply::without(
            known,
            list,
        ).hashes[key] == known.hashes[key],
    decreases list.len(),
{
    if list.len() > 0 {
        let front = list.drop_last();
        lemma_without(known, front, key);
        if names_key(front, key) {
            let x = choose|x: int|
                0 <= x < front.len() && state::key_of(
                    (#[trigger] front[x]).note_id,
                    front[x].fp,
                ) == key;
            assert(list[x] == front[x]);
            assert(names_key(list, key));
        }
        if names_key(list, key) && !names_key(front, key) {
            let x = choose|x: int|
                0 <= x < list.len() && state::key_of((#[trigger] list[x]).note_id, list[x].fp)
                    == key;
            if x < front.len() {
                assert(front[x] == list[x]);
            }
        }
        if state::key_of(list.last().note_id, list.last().fp) == key {
            assert(state::key_of(list[list.len() - 1].note_id, list[list.len() - 1].fp) == key);
        }
    }
}

/// The updates of a batch whose notes were found, or were not.
pub proof fn lemma_chosen(list: Seq<UpdateModel>, found: Seq<bool>, wanted: bool)
    requires
        found.len() <= list.len(),
    ensures
        forall|x: int|
            0 <= x < found.len() && found[x] == wanted ==> apply::chosen(
                list,
                found,
                wanted,
            ).contains(#[trigger] list[x]),
        forall|y: int|
            0 <= y < apply::chosen(list, found, wanted).len() ==> list.contains(
                #[trigger] apply::chosen(list, found, wanted)[y],
            ),
    decreases found.len(),
{
    if found.len() > 0 {
        let front = found.drop_last();
        lemma_chosen(list, front, wanted);
        let before = apply::chosen(list, front, wanted);
        let after = apply::chosen(list, found, wanted);
        assert forall|x: int| 0 <= x < found.len() && found[x] == wanted implies after.contains(
            #[trigger] list[x],
        ) by {
            if x < front.len() {
                assert(front[x] == wanted);
                assert(before.contains(list[x]));
                let y = choose|y: int| 0 <= y < before.len() && before[y] == list[x];
                assert(after[y] == list[x]);
            } else {
                assert(after[after.len() - 1] == list[x]);
            }
        }
        assert forall|y: int| 0 <= y < after.len() implies list.contains(#[trigger] after[y]) by {
            if y < before.len() {
                assert(after[y] == before[y]);
            } else {
                assert(after[y] == list[found.len() - 1]);
            }
        }
    }
}

// ── The course of a run ──────────────────────────────────────────────────────

/// The update has been made and recorded.
pub open spec fn is_done_update(apply: ApplyModel, x: int) -> bool {
    let total = apply.updates.len();
    match apply.phase {
        PhaseModel::UpdateDecks(_) => false,
        PhaseModel::Updating(from)
        | PhaseModel::Moving(from, _)
        | PhaseModel::Moved(from, _) => x < from,
        PhaseModel::Readding(from, found) => x < from || (x < apply::batch_end(from, total)
            && found[x - from]),
        PhaseModel::Readded(from)
        | PhaseModel::Updated(from)
        | PhaseModel::UpdateSaved(from) => x < apply::batch_end(from, total),
        _ => true,
    }
}

/// The addition has been made and recorded.
pub open spec fn is_done_add(apply: ApplyModel, x: int) -> bool {
    let total = apply.adds.len();
    match apply.phase {
        PhaseModel::Adding(from) => x < from,
        PhaseModel::Added(from) | PhaseModel::AddSaved(from) => x < apply::batch_end(from, total),
        PhaseModel::Clearing
        | PhaseModel::Deleted(_)
        | PhaseModel::Finishing
        | PhaseModel::Done => true,
        _ => false,
    }
}

/// One of the updates that are still to be made is one of the card.
pub open spec fn awaits_update(
    apply: ApplyModel,
    card: ScopedModel,
    hash: Seq<char>,
) -> bool {
    exists|x: int|
        0 <= x < apply.updates.len() && !is_done_update(apply, x) && sync_laws::stands_for(
            (#[trigger] apply.updates[x]).card,
            card,
            hash,
        )
}

/// One of the additions that are still to be made is one of the card.
pub open spec fn awaits_addition(
    apply: ApplyModel,
    card: ScopedModel,
    hash: Seq<char>,
) -> bool {
    exists|x: int|
        0 <= x < apply.adds.len() && !is_done_add(apply, x) && sync_laws::stands_for(
            #[trigger] apply.adds[x],
            card,
            hash,
        )
}

/// A card of the run is in Anki with the digest that it is to have, or will be.
pub open spec fn is_cared_for(
    apply: ApplyModel,
    known: StateModel,
    targets: Seq<Seq<char>>,
    j: int,
) -> bool {
    ||| settled(known, apply.scope.cards, targets, j)
    ||| awaits_update(apply, apply.scope.cards[j], targets[j])
    ||| awaits_addition(apply, apply.scope.cards[j], targets[j])
}

/// The run looks at the note: one without filters looks at all notes.
pub open spec fn looks_at(scope: ScopeModel, options: OptionsModel, note_id: Seq<char>) -> bool {
    (options.tag_filter is None && options.note_filter is None) || scope.tags.contains_key(note_id)
}

/// In the notes that the run looks at, all tracked cards are cards of the run.
pub open spec fn only_current(
    known: StateModel,
    scope: ScopeModel,
    options: OptionsModel,
) -> bool {
    forall|card: KnownCard| #[trigger]
        state::is_known(known, card) && looks_at(scope, options, card.note_id) ==> scope::in_scope(
            scope.cards,
            (card.note_id, card.fp),
        )
}

/// The list holds the tracked cards, in the notes that the run looks at, that are not cards of
/// the run.
pub open spec fn lists_stale(
    stale: Seq<KnownCard>,
    known: StateModel,
    scope: ScopeModel,
    options: OptionsModel,
) -> bool {
    forall|card: KnownCard| #[trigger]
        stale.contains(card) <==> state::is_known(known, card) && looks_at(
            scope,
            options,
            card.note_id,
        ) && !scope::in_scope(scope.cards, (card.note_id, card.fp))
}

/// The run is on its course: each of its cards is in Anki with the digest that it is to have, or
/// will be; and what is tracked besides them in the notes that it looks at is gone, or will be.
pub open spec fn on_course(
    apply: ApplyModel,
    known: StateModel,
    options: OptionsModel,
    targets: Seq<Seq<char>>,
) -> bool {
    let cards = apply.scope.cards;
    &&& apply::is_sound(apply)
    &&& targets.len() == cards.len()
    &&& ids_are_plain(cards)
    &&& forall|x: int|
        0 <= x < apply.updates.len() ==> agrees(
            (#[trigger] apply.updates[x]).card,
            cards,
            targets,
        ) && known.cards.contains_key(apply::pending_key(apply.updates[x].card))
    &&& all_agree(apply.adds, cards, targets)
    &&& forall|j: int| 0 <= j < cards.len() ==> #[trigger] is_cared_for(apply, known, targets, j)
    &&& match apply.phase {
        PhaseModel::Moving(from, found)
        | PhaseModel::Moved(from, found)
        | PhaseModel::Readding(from, found) => found.len() == apply::batch(
            apply.updates,
            from,
        ).len(),
        PhaseModel::Deleted(stale) => lists_stale(stale, known, apply.scope, options),
        PhaseModel::Finishing | PhaseModel::Done => only_current(known, apply.scope, options),
        _ => true,
    }
}

/// What is recorded grows, and the updates and additions that become done are settled: then the
/// run stays on its course.
proof fn lemma_on_course(
    apply: ApplyModel,
    known: StateModel,
    more: ApplyModel,
    recorded: StateModel,
    options: OptionsModel,
    targets: Seq<Seq<char>>,
)
    requires
        on_course(apply, known, options, targets),
        apply::is_sound(more),
        more.scope == apply.scope,
        more.updates == apply.updates,
        more.adds == apply.adds,
        forall|key: Seq<char>| #[trigger]
            known.cards.contains_key(key) ==> recorded.cards.contains_key(key),
        forall|j: int|
            0 <= j < apply.scope.cards.len() && settled(known, apply.scope.cards, targets, j)
                ==> #[trigger] settled(recorded, apply.scope.cards, targets, j),
        forall|x: int, j: int|
            0 <= x < apply.updates.len() && 0 <= j < apply.scope.cards.len() && !is_done_update(
                apply,
                x,
            ) && is_done_update(more, x) && #[trigger] sync_laws::stands_for(
                apply.updates[x].card,
                apply.scope.cards[j],
                targets[j],
            ) ==> settled(recorded, apply.scope.cards, targets, j),
        forall|x: int, j: int|
            0 <= x < apply.adds.len() && 0 <= j < apply.scope.cards.len() && !is_done_add(apply, x)
                && is_done_add(more, x) && #[trigger] sync_laws::stands_for(
                apply.adds[x],
                apply.scope.cards[j],
                targets[j],
            ) ==> settled(recorded, apply.scope.cards, targets, j),
        match more.phase {
            PhaseModel::Moving(from, found)
            | PhaseModel::Moved(from, found)
            | PhaseModel::Readding(from, found) => found.len() == apply::batch(
                more.updates,
                from,
            ).len(),
            PhaseModel::Deleted(stale) => lists_stale(stale, recorded, more.scope, options),
            PhaseModel::Finishing | PhaseModel::Done => only_current(recorded, more.scope, options),
            _ => true,
        },
    ensures
        on_course(more, recorded, options, targets),
{
    let cards = apply.scope.cards;
    assert forall|j: int| 0 <= j < cards.len() implies #[trigger] is_cared_for(
        more,
        recorded,
        targets,
        j,
    ) by {
        assert(is_cared_for(apply, known, targets, j));
        if settled(known, cards, targets, j) {
            assert(settled(recorded, cards, targets, j));
        } else if awaits_update(apply, cards[j], targets[j]) {
            let x = choose|x: int|
                0 <= x < apply.updates.len() && !is_done_update(apply, x)
                    && sync_laws::stands_for(
                    (#[trigger] apply.updates[x]).card,
                    cards[j],
                    targets[j],
                );
            if !is_done_update(more, x) {
                assert(sync_laws::stands_for(more.updates[x].card, cards[j], targets[j]));
                assert(awaits_update(more, cards[j], targets[j]));
            }
        } else {
            let x = choose|x: int|
                0 <= x < apply.adds.len() && !is_done_add(apply, x) && sync_laws::stands_for(
                    #[trigger] apply.adds[x],
                    cards[j],
                    targets[j],
                );
            if !is_done_add(more, x) {
                assert(sync_laws::stands_for(more.adds[x], cards[j], targets[j]));
                assert(awaits_addition(more, cards[j], targets[j]));
            }
        }
    }
    assert forall|x: int| 0 <= x < more.updates.len() implies agrees(
        (#[trigger] more.updates[x]).card,
        cards,
        targets,
    ) && recorded.cards.contains_key(apply::pending_key(more.updates[x].card)) by {
        assert(agrees(apply.updates[x].card, cards, targets));
        assert(known.cards.contains_key(apply::pending_key(apply.updates[x].card)));
    }
}

/// The cards of a batch whose notes were found, or were not.
proof fn lemma_batch_cards(
    apply: ApplyModel,
    known: StateModel,
    options: OptionsModel,
    targets: Seq<Seq<char>>,
    from: int,
    found: Seq<bool>,
    wanted: bool,
)
    requires
        on_course(apply, known, options, targets),
        0 <= from < apply.updates.len(),
        found.len() == apply::batch(apply.updates, from).len(),
    ensures
        ({
            let list = apply::cards_of(
                apply::chosen(apply::batch(apply.updates, from), found, wanted),
            );
            &&& all_agree(list, apply.scope.cards, targets)
            &&& forall|x: int|
                from <= x < apply::batch_end(from, apply.updates.len()) && found[x - from]
                    == wanted ==> list.contains((#[trigger] apply.updates[x]).card)
        }),
{
    let all = apply::batch(apply.updates, from);
    let some = apply::chosen(all, found, wanted);
    let list = apply::cards_of(some);
    lemma_chosen(all, found, wanted);
    assert forall|y: int| 0 <= y < list.len() implies agrees(
        #[trigger] list[y],
        apply.scope.cards,
        targets,
    ) by {
        assert(all.contains(some[y]));
        let x = choose|x: int| 0 <= x < all.len() && all[x] == some[y];
        assert(apply.updates[from + x].card == list[y]);
    }
    assert forall|x: int|
        from <= x < apply::batch_end(from, apply.updates.len()) && found[x - from]
            == wanted implies list.contains((#[trigger] apply.updates[x]).card) by {
        assert(all[x - from] == apply.updates[x]);
        assert(some.contains(all[x - from]));
        let y = choose|y: int| 0 <= y < some.len() && some[y] == all[x - from];
        assert(list[y] == apply.updates[x].card);
    }
}

proof fn lemma_update_step(
    apply: ApplyModel,
    known: StateModel,
    options: OptionsModel,
    targets: Seq<Seq<char>>,
)
    requires
        on_course(apply, known, options, targets),
        apply.phase is UpdateDecks || apply.phase is Updating || apply.phase is Moving
            || apply.phase is Moved || apply.phase is Readding || apply.phase is Readded
            || apply.phase is Updated || apply.phase is UpdateSaved,
    ensures
        ({
            let outcome = apply::update_step(apply, known, options);
            on_course(outcome.apply, outcome.known, options, targets)
        }),
{
    let outcome = apply::update_step(apply, known, options);
    let cards = apply.scope.cards;
    if let PhaseModel::Moved(from, found) = apply.phase {
        let all = apply::batch(apply.updates, from);
        let kept = apply::cards_of(apply::chosen(all, found, true));
        lemma_batch_cards(apply, known, options, targets, from, found, true);
        lemma_batch_cards(apply, known, options, targets, from, found, false);
        lemma_with_hashes(known, kept, cards, targets);
        assert forall|x: int, j: int|
            0 <= x < apply.updates.len() && 0 <= j < cards.len() && !is_done_update(apply, x)
                && is_done_update(outcome.apply, x) && #[trigger] sync_laws::stands_for(
                apply.updates[x].card,
                cards[j],
                targets[j],
            ) implies settled(outcome.known, cards, targets, j) by {
            if !found[x - from] {
                let lost = apply::chosen(all, found, false);
                assert(apply::cards_of(lost).contains(apply.updates[x].card));
                assert(apply::cards_of(lost).len() == lost.len());
            }
            assert(kept.contains(apply.updates[x].card));
            let y = choose|y: int| 0 <= y < kept.len() && kept[y] == apply.updates[x].card;
            lemma_pending_key(apply.updates[x].card, cards, targets, j);
            assert(sync_laws::stands_for(kept[y], cards[j], targets[j]));
        }
    }
    lemma_on_course(apply, known, outcome.apply, outcome.known, options, targets);
}

proof fn lemma_add_step(
    apply: ApplyModel,
    known: StateModel,
    options: OptionsModel,
    targets: Seq<Seq<char>>,
)
    requires
        on_course(apply, known, options, targets),
        apply.phase is AddDecks || apply.phase is Adding || apply.phase is Added
            || apply.phase is AddSaved,
    ensures
        ({
            let outcome = apply::add_step(apply, known, options);
            on_course(outcome.apply, outcome.known, options, targets)
        }),
{
    let outcome = apply::add_step(apply, known, options);
    lemma_on_course(apply, known, outcome.apply, outcome.known, options, targets);
}

proof fn lemma_end_step(
    apply: ApplyModel,
    known: StateModel,
    listed: Seq<KnownCard>,
    options: OptionsModel,
    targets: Seq<Seq<char>>,
)
    requires
        on_course(apply, known, options, targets),
        apply.phase is Clearing || apply.phase is Deleted || apply.phase is Finishing
            || apply.phase is Done,
        state::lists_known(listed, known),
        !options.dry_run,
    ensures
        ({
            let outcome = apply::end_step(apply, known, listed, options);
            on_course(outcome.apply, outcome.known, options, targets)
        }),
{
    let outcome = apply::end_step(apply, known, listed, options);
    let cards = apply.scope.cards;
    match apply.phase {
        PhaseModel::Clearing => {
            let pred = apply::is_stale(apply.scope, options);
            let stale = listed.filter(pred);
            assert forall|card: KnownCard| #[trigger]
                stale.contains(card) <==> state::is_known(known, card) && looks_at(
                    apply.scope,
                    options,
                    card.note_id,
                ) && !scope::in_scope(cards, (card.note_id, card.fp)) by {
                assert(listed.contains(card) <==> state::is_known(known, card));
                if listed.contains(card) && pred(card) {
                    let i = choose|i: int| 0 <= i < listed.len() && listed[i] == card;
                    listed.lemma_filter_contains(pred, i);
                }
                if stale.contains(card) {
                    let i = choose|i: int| 0 <= i < stale.len() && stale[i] == card;
                    listed.lemma_filter_pred(pred, i);
                    listed.lemma_filter_contains_rev(pred, card);
                }
            }
            if stale.len() == 0 {
                assert forall|card: KnownCard| #[trigger]
                    state::is_known(known, card) && looks_at(
                        apply.scope,
                        options,
                        card.note_id,
                    ) implies scope::in_scope(cards, (card.note_id, card.fp)) by {
                    assert(!stale.contains(card));
                }
            }
            lemma_on_course(apply, known, outcome.apply, outcome.known, options, targets);
        },
        PhaseModel::Deleted(stale) => {
            lemma_deletion(apply, known, options, targets, stale);
        },
        _ => {
            lemma_on_course(apply, known, outcome.apply, outcome.known, options, targets);
        },
    }
}

/// The cards of the run stay when the others go.
proof fn lemma_deletion(
    apply: ApplyModel,
    known: StateModel,
    options: OptionsModel,
    targets: Seq<Seq<char>>,
    stale: Seq<KnownCard>,
)
    requires
        on_course(apply, known, options, targets),
        apply.phase == PhaseModel::Deleted(stale),
    ensures
        on_course(
            (ApplyModel {
                report: sync::SyncReport { deleted: stale.len() as usize, ..apply.report },
                phase: PhaseModel::Finishing,
                ..apply
            }),
            apply::without(known, stale),
            options,
            targets,
        ),
{
    let cards = apply.scope.cards;
    let more = ApplyModel {
        report: sync::SyncReport { deleted: stale.len() as usize, ..apply.report },
        phase: PhaseModel::Finishing,
        ..apply
    };
    let recorded = apply::without(known, stale);
    assert forall|j: int| 0 <= j < cards.len() implies !names_key(
        stale,
        #[trigger] sync::scoped_key(cards[j]),
    ) by {
        if names_key(stale, sync::scoped_key(cards[j])) {
            let x = choose|x: int|
                0 <= x < stale.len() && state::key_of((#[trigger] stale[x]).note_id, stale[x].fp)
                    == sync::scoped_key(cards[j]);
            assert(stale.contains(stale[x]));
            state::law_keys_tell_cards_apart(
                stale[x].note_id,
                stale[x].fp,
                cards[j].note_id,
                cards[j].card.fingerprint,
            );
            assert(scope::identity(cards[j]) == (stale[x].note_id, stale[x].fp));
        }
    }
    assert forall|j: int| 0 <= j < cards.len() implies #[trigger] is_cared_for(
        more,
        recorded,
        targets,
        j,
    ) by {
        assert(is_cared_for(apply, known, targets, j));
        lemma_without(known, stale, sync::scoped_key(cards[j]));
    }
    assert forall|x: int| 0 <= x < more.updates.len() implies agrees(
        (#[trigger] more.updates[x]).card,
        cards,
        targets,
    ) && recorded.cards.contains_key(apply::pending_key(more.updates[x].card)) by {
        let pending = apply.updates[x].card;
        assert(agrees(pending, cards, targets));
        let j = choose|j: int|
            0 <= j < cards.len() && sync_laws::stands_for(
                pending,
                #[trigger] cards[j],
                targets[j],
            );
        lemma_without(known, stale, sync::scoped_key(cards[j]));
    }
    assert forall|card: KnownCard| #[trigger]
        state::is_known(recorded, card) && looks_at(apply.scope, options, card.note_id) implies
        scope::in_scope(cards, (card.note_id, card.fp)) by {
        let key = state::key_of(card.note_id, card.fp);
        lemma_without(known, stale, key);
        assert(state::is_known(known, card));
        if stale.contains(card) {
            let x = choose|x: int| 0 <= x < stale.len() && stale[x] == card;
            assert(state::key_of(stale[x].note_id, stale[x].fp) == key);
            assert(names_key(stale, key));
        }
    }
}

/// Each event leaves a run on its course.
pub proof fn law_run_stays_on_course(
    apply: ApplyModel,
    known: StateModel,
    options: OptionsModel,
    targets: Seq<Seq<char>>,
    event: ApplyEvent,
)
    requires
        on_course(apply, known, options, targets),
        fits(apply, known, event),
        !options.dry_run,
    ensures
        ({
            let after = after_event(apply, known, options, event);
            on_course(after.0, after.1, options, targets)
        }),
{
    let cards = apply.scope.cards;
    let (more, recorded) = after_event(apply, known, options, event);
    match event {
        ApplyEvent::Step(listed) => {
            match apply.phase {
                PhaseModel::Clearing
                | PhaseModel::Deleted(_)
                | PhaseModel::Finishing
                | PhaseModel::Done => {
                    lemma_end_step(apply, known, listed, options, targets);
                },
                PhaseModel::AddDecks(_)
                | PhaseModel::Adding(_)
                | PhaseModel::Added(_)
                | PhaseModel::AddSaved(_) => {
                    lemma_add_step(apply, known, options, targets);
                },
                _ => {
                    lemma_update_step(apply, known, options, targets);
                },
            }
        },
        ApplyEvent::Outcomes(outcomes) => {
            lemma_on_course(apply, known, more, recorded, options, targets);
        },
        ApplyEvent::Ids(ids) => {
            let list = apply::being_added(apply);
            if let PhaseModel::Readding(from, found) = apply.phase {
                lemma_batch_cards(apply, known, options, targets, from, found, false);
            }
            if let PhaseModel::Adding(from) = apply.phase {
                assert forall|y: int| 0 <= y < list.len() implies agrees(
                    #[trigger] list[y],
                    cards,
                    targets,
                ) by {
                    assert(agrees(apply.adds[from + y], cards, targets));
                }
            }
            lemma_with_notes(known, list, ids, ids.len(), cards, targets);
            assert forall|x: int, j: int|
                0 <= x < apply.updates.len() && 0 <= j < cards.len() && !is_done_update(apply, x)
                    && is_done_update(more, x) && #[trigger] sync_laws::stands_for(
                    apply.updates[x].card,
                    cards[j],
                    targets[j],
                ) implies settled(recorded, cards, targets, j) by {
                assert(list.contains(apply.updates[x].card));
                let y = choose|y: int| 0 <= y < list.len() && list[y] == apply.updates[x].card;
                assert(sync_laws::stands_for(list[y], cards[j], targets[j]));
            }
            assert forall|x: int, j: int|
                0 <= x < apply.adds.len() && 0 <= j < cards.len() && !is_done_add(apply, x)
                    && is_done_add(more, x) && #[trigger] sync_laws::stands_for(
                    apply.adds[x],
                    cards[j],
                    targets[j],
                ) implies settled(recorded, cards, targets, j) by {
                let from = apply.phase->Adding_0;
                assert(list[x - from] == apply.adds[x]);
                assert(sync_laws::stands_for(list[x - from], cards[j], targets[j]));
            }
            lemma_on_course(apply, known, more, recorded, options, targets);
        },
    }
}

proof fn lemma_applied(
    apply: ApplyModel,
    known: StateModel,
    options: OptionsModel,
    targets: Seq<Seq<char>>,
    events: Seq<ApplyEvent>,
)
    requires
        on_course(apply, known, options, targets),
        !options.dry_run,
    ensures
        applied(apply, known, options, events) matches Some(after) ==> on_course(
            after.0,
            after.1,
            options,
            targets,
        ) && after.0.scope == apply.scope,
    decreases events.len(),
{
    if events.len() > 0 {
        lemma_applied(apply, known, options, targets, events.drop_last());
        if let Some(before) = applied(apply, known, options, events.drop_last()) {
            if fits(before.0, before.1, events.last()) {
                law_run_stays_on_course(before.0, before.1, options, targets, events.last());
            }
        }
    }
}

/// The digests that the cards of a plan are to have.
pub open spec fn targets_of(plan: PlanModel, options: OptionsModel) -> Seq<Seq<char>> {
    Seq::new(
        plan.scope.cards.len(),
        |j: int| sync_laws::hash_at(plan, j, options.config),
    )
}

/// A complete plan sets the changes on their course.
proof fn lemma_first_course(plan: PlanModel, known: StateModel, options: OptionsModel)
    requires
        sync::is_sound(plan),
        sync_laws::is_faithful(plan, known, options.config),
        sync_laws::is_complete(plan),
        ids_are_plain(plan.scope.cards),
    ensures
        on_course(apply::first_apply(plan), known, options, targets_of(plan, options)),
{
    let apply = apply::first_apply(plan);
    let cards = plan.scope.cards;
    let targets = targets_of(plan, options);
    assert forall|pending: AddModel| #[trigger]
        sync_laws::comes_from(plan, options.config, pending) implies agrees(
        pending,
        cards,
        targets,
    ) by {
        let j = choose|j: int|
            0 <= j < plan.next && sync_laws::stands_for(
                pending,
                #[trigger] plan.scope.cards[j],
                sync_laws::hash_at(plan, j, options.config),
            ) && plan.images.contains_key(plan.scope.cards[j].note_id);
        assert(sync_laws::stands_for(pending, cards[j], targets[j]));
    }
    assert forall|x: int| 0 <= x < apply.updates.len() implies agrees(
        (#[trigger] apply.updates[x]).card,
        cards,
        targets,
    ) && known.cards.contains_key(apply::pending_key(apply.updates[x].card)) by {
        assert(sync_laws::comes_from(plan, options.config, plan.updates[x].card));
    }
    assert forall|x: int| 0 <= x < apply.adds.len() implies agrees(
        #[trigger] apply.adds[x],
        cards,
        targets,
    ) by {
        assert(sync_laws::comes_from(plan, options.config, plan.adds[x]));
    }
    assert forall|j: int| 0 <= j < cards.len() implies #[trigger] is_cared_for(
        apply,
        known,
        targets,
        j,
    ) by {
        assert(sync_laws::is_covered(plan, known, options.config, j));
        let hash = sync_laws::hash_at(plan, j, options.config);
        if sync_laws::is_in_updates(plan.updates, cards[j], hash) {
            let x = choose|x: int|
                0 <= x < plan.updates.len() && sync_laws::stands_for(
                    (#[trigger] plan.updates[x]).card,
                    cards[j],
                    hash,
                );
            assert(!is_done_update(apply, x));
            assert(sync_laws::stands_for(apply.updates[x].card, cards[j], targets[j]));
        } else if sync_laws::is_in_adds(plan.adds, cards[j], hash) {
            let x = choose|x: int|
                0 <= x < plan.adds.len() && sync_laws::stands_for(
                    #[trigger] plan.adds[x],
                    cards[j],
                    hash,
                );
            assert(!is_done_add(apply, x));
            assert(sync_laws::stands_for(apply.adds[x], cards[j], targets[j]));
        }
    }
}

/// After a run that succeeds, exactly the cards of the notes that it looks at are tracked in
/// these notes, each with the digest of its content: new cards are added, changed ones updated,
/// and those that are gone deleted. Each card is counted once.
pub proof fn law_finished_run_mirrors_the_notes(
    scope: ScopeModel,
    known: StateModel,
    options: OptionsModel,
    plan_events: Seq<PlanEvent>,
    plan: PlanModel,
    apply_events: Seq<ApplyEvent>,
    end: ApplyModel,
    recorded: StateModel,
)
    requires
        scope::identities_differ(scope.cards),
        scope.cards.len() <= usize::MAX,
        ids_are_plain(scope.cards),
        !options.dry_run,
        sync_laws::planned(sync::first_plan(scope), known, options, plan_events) == Some(plan),
        sync_laws::is_complete(plan),
        applied(apply::first_apply(plan), known, options, apply_events) == Some((end, recorded)),
        end.phase is Done,
    ensures
        forall|j: int|
            0 <= j < scope.cards.len() ==> sync_laws::is_settled(
                recorded,
                #[trigger] scope.cards[j],
                sync_laws::hash_at(plan, j, options.config),
            ),
        only_current(recorded, scope, options),
        end.report.added + end.report.updated + end.report.skipped == scope.cards.len(),
{
    sync_laws::lemma_planned(scope, known, options, plan_events);
    let targets = targets_of(plan, options);
    lemma_first_course(plan, known, options);
    lemma_applied(apply::first_apply(plan), known, options, targets, apply_events);
    assert forall|j: int| 0 <= j < scope.cards.len() implies sync_laws::is_settled(
        recorded,
        #[trigger] scope.cards[j],
        sync_laws::hash_at(plan, j, options.config),
    ) by {
        assert(is_cared_for(end, recorded, targets, j));
    }
}

/// A run skips every card that the last run left, as long as the card, its tags, its images and
/// the settings are the same, unless it is forced.
pub proof fn law_next_run_skips_what_has_not_changed(
    plan: PlanModel,
    recorded: StateModel,
    options: OptionsModel,
    last: PlanModel,
    j: int,
)
    requires
        0 <= j < last.scope.cards.len(),
        sync_laws::is_settled(
            recorded,
            last.scope.cards[j],
            sync_laws::hash_at(last, j, options.config),
        ),
        sync::is_sound(plan),
        plan.next < plan.scope.cards.len(),
        plan.scope.cards[plan.next] == last.scope.cards[j],
        sync::bear_tags(plan.scope, last.scope.cards[j].note_id) == sync::bear_tags(
            last.scope,
            last.scope.cards[j].note_id,
        ),
        plan.images[last.scope.cards[j].note_id] == last.images[last.scope.cards[j].note_id],
        !options.force,
    ensures
        sync::next_decision(plan, recorded, options) is Skip,
{
}

/// The tracked cards of a note that a filtered run does not look at.
pub open spec fn is_elsewhere(scope: ScopeModel, key: Seq<char>) -> bool {
    exists|note_id: Seq<char>, fp: Seq<char>|
        !note_id.contains(':') && !scope.tags.contains_key(note_id) && key
            == #[trigger] state::key_of(note_id, fp)
}

/// Every card of the scope stands in one of its notes.
pub open spec fn notes_are_known(scope: ScopeModel) -> bool {
    forall|j: int|
        0 <= j < scope.cards.len() ==> scope.tags.contains_key(
            (#[trigger] scope.cards[j]).note_id,
        )
}

/// In the scope that some notes make, every card stands in one of the notes, and no two cards
/// have the same identity.
pub proof fn law_scopes_know_their_notes(notes: Seq<SourceNote>)
    ensures
        notes_are_known(scope::scope_of(notes)),
        scope::identities_differ(scope::scope_of(notes).cards),
{
    let made = scope::scope_of(notes);
    scope::law_scope_holds_the_cards_of_its_notes(notes);
    assert forall|j: int| 0 <= j < made.cards.len() implies made.tags.contains_key(
        (#[trigger] made.cards[j]).note_id,
    ) by {
        assert(scope::in_scope(made.cards, scope::identity(made.cards[j])));
    }
}

/// The pending cards stand in notes of the scope.
pub open spec fn stays_in_scope(apply: ApplyModel) -> bool {
    &&& forall|x: int|
        0 <= x < apply.updates.len() ==> {
            let note_id = (#[trigger] apply.updates[x]).card.note_id;
            apply.scope.tags.contains_key(note_id) && !note_id.contains(':')
        }
    &&& forall|x: int|
        0 <= x < apply.adds.len() ==> {
            let note_id = (#[trigger] apply.adds[x]).note_id;
            apply.scope.tags.contains_key(note_id) && !note_id.contains(':')
        }
    &&& apply.phase matches PhaseModel::Deleted(stale) ==> forall|x: int|
        0 <= x < stale.len() ==> {
            let note_id = (#[trigger] stale[x]).note_id;
            apply.scope.tags.contains_key(note_id) && !note_id.contains(':')
        }
}

/// Two states track the same cards, with the same digests, in the notes that a filtered run does
/// not look at.
pub open spec fn same_elsewhere(scope: ScopeModel, a: StateModel, b: StateModel) -> bool {
    forall|key: Seq<char>| #[trigger]
        is_elsewhere(scope, key) ==> {
            &&& a.cards.contains_key(key) == b.cards.contains_key(key)
            &&& a.cards.contains_key(key) ==> a.cards[key] == b.cards[key]
            &&& a.hashes.contains_key(key) == b.hashes.contains_key(key)
            &&& a.hashes.contains_key(key) ==> a.hashes[key] == b.hashes[key]
        }
}

/// A card in a note of the scope is not elsewhere.
proof fn lemma_not_elsewhere(scope: ScopeModel, note_id: Seq<char>, fp: Seq<char>)
    requires
        scope.tags.contains_key(note_id),
        !note_id.contains(':'),
    ensures
        !is_elsewhere(scope, state::key_of(note_id, fp)),
{
    let key = state::key_of(note_id, fp);
    if is_elsewhere(scope, key) {
        let (other_id, other_fp) = choose|other_id: Seq<char>, other_fp: Seq<char>|
            !other_id.contains(':') && !scope.tags.contains_key(other_id) && key
                == #[trigger] state::key_of(other_id, other_fp);
        state::law_keys_tell_cards_apart(note_id, fp, other_id, other_fp);
    }
}

proof fn lemma_hashes_elsewhere(scope: ScopeModel, known: StateModel, list: Seq<AddModel>)
    requires
        forall|x: int|
            0 <= x < list.len() ==> scope.tags.contains_key((#[trigger] list[x]).note_id)
                && !list[x].note_id.contains(':'),
    ensures
        same_elsewhere(scope, known, apply::with_hashes(known, list)),
    decreases list.len(),
{
    if list.len() > 0 {
        lemma_hashes_elsewhere(scope, known, list.drop_last());
        let last = list[list.len() - 1];
        lemma_not_elsewhere(scope, last.note_id, last.fp);
    }
}

proof fn lemma_notes_elsewhere(
    scope: ScopeModel,
    known: StateModel,
    list: Seq<AddModel>,
    ids: Seq<u64>,
    count: nat,
)
    requires
        count <= list.len(),
        forall|x: int|
            0 <= x < list.len() ==> scope.tags.contains_key((#[trigger] list[x]).note_id)
                && !list[x].note_id.contains(':'),
    ensures
        same_elsewhere(scope, known, apply::with_notes(known, list, ids, count)),
    decreases count,
{
    if count > 0 {
        lemma_notes_elsewhere(scope, known, list, ids, (count - 1) as nat);
        let last = list[count - 1];
        lemma_not_elsewhere(scope, last.note_id, last.fp);
    }
}

proof fn lemma_filtered_event(
    apply: ApplyModel,
    known: StateModel,
    options: OptionsModel,
    event: ApplyEvent,
)
    requires
        apply::is_sound(apply),
        stays_in_scope(apply),
        fits(apply, known, event),
        options.tag_filter is Some || options.note_filter is Some,
    ensures
        ({
            let after = after_event(apply, known, options, event);
            &&& stays_in_scope(after.0)
            &&& after.0.scope == apply.scope
            &&& same_elsewhere(apply.scope, known, after.1)
        }),
{
    let scope = apply.scope;
    match event {
        ApplyEvent::Step(listed) => {
            match apply.phase {
                PhaseModel::Moved(from, found) => {
                    let all = apply::batch(apply.updates, from);
                    let kept = apply::chosen(all, found, true);
                    let list = apply::cards_of(kept);
                    lemma_chosen(all, found, true);
                    assert forall|x: int| 0 <= x < list.len() implies scope.tags.contains_key(
                        (#[trigger] list[x]).note_id,
                    ) && !list[x].note_id.contains(':') by {
                        assert(all.contains(kept[x]));
                        let y = choose|y: int| 0 <= y < all.len() && all[y] == kept[x];
                        assert(apply.updates[from + y].card == list[x]);
                    }
                    lemma_hashes_elsewhere(scope, known, list);
                },
                PhaseModel::Clearing => {
                    let pred = apply::is_stale(scope, options);
                    let stale = listed.filter(pred);
                    assert forall|x: int| 0 <= x < stale.len() implies {
                        let note_id = (#[trigger] stale[x]).note_id;
                        scope.tags.contains_key(note_id) && !note_id.contains(':')
                    } by {
                        assert(stale.contains(stale[x]));
                        listed.lemma_filter_contains_rev(pred, stale[x]);
                        assert(listed.contains(stale[x]));
                        listed.lemma_filter_pred(pred, x);
                    }
                },
                PhaseModel::Deleted(stale) => {
                    assert forall|key: Seq<char>| #[trigger]
                        is_elsewhere(scope, key) implies !names_key(stale, key) by {
                        if names_key(stale, key) {
                            let x = choose|x: int|
                                0 <= x < stale.len() && state::key_of(
                                    (#[trigger] stale[x]).note_id,
                                    stale[x].fp,
                                ) == key;
                            lemma_not_elsewhere(scope, stale[x].note_id, stale[x].fp);
                        }
                    }
                    assert forall|key: Seq<char>| #[trigger] is_elsewhere(scope, key) implies {
                        let after = apply::without(known, stale);
                        &&& known.cards.contains_key(key) == after.cards.contains_key(key)
                        &&& known.cards.contains_key(key) ==> known.cards[key] == after.cards[key]
                        &&& known.hashes.contains_key(key) == after.hashes.contains_key(key)
                        &&& known.hashes.contains_key(key) ==> known.hashes[key]
                            == after.hashes[key]
                    } by {
                        lemma_without(known, stale, key);
                    }
                },
                _ => {},
            }
        },
        ApplyEvent::Outcomes(_) => {},
        ApplyEvent::Ids(ids) => {
            let list = apply::being_added(apply);
            if let PhaseModel::Readding(from, found) = apply.phase {
                let all = apply::batch(apply.updates, from);
                let lost = apply::chosen(all, found, false);
                lemma_chosen(all, found, false);
                assert forall|x: int| 0 <= x < list.len() implies scope.tags.contains_key(
                    (#[trigger] list[x]).note_id,
                ) && !list[x].note_id.contains(':') by {
                    assert(all.contains(lost[x]));
                    let y = choose|y: int| 0 <= y < all.len() && all[y] == lost[x];
                    assert(apply.updates[from + y].card == list[x]);
                }
            }
            if let PhaseModel::Adding(from) = apply.phase {
                assert forall|x: int| 0 <= x < list.len() implies scope.tags.contains_key(
                    (#[trigger] list[x]).note_id,
                ) && !list[x].note_id.contains(':') by {
                    assert(apply.adds[from + x] == list[x]);
                }
            }
            lemma_notes_elsewhere(scope, known, list, ids, ids.len());
        },
    }
}

/// The changes stay sound, and the lists of them as they are.
pub proof fn lemma_stays_sound(
    apply: ApplyModel,
    known: StateModel,
    options: OptionsModel,
    event: ApplyEvent,
)
    requires
        apply::is_sound(apply),
        fits(apply, known, event),
    ensures
        apply::is_sound(after_event(apply, known, options, event).0),
        after_event(apply, known, options, event).0.scope == apply.scope,
        after_event(apply, known, options, event).0.updates == apply.updates,
        after_event(apply, known, options, event).0.adds == apply.adds,
{
}

proof fn lemma_filtered_run(
    apply: ApplyModel,
    known: StateModel,
    options: OptionsModel,
    events: Seq<ApplyEvent>,
)
    requires
        apply::is_sound(apply),
        stays_in_scope(apply),
        options.tag_filter is Some || options.note_filter is Some,
    ensures
        applied(apply, known, options, events) matches Some(after) ==> {
            &&& apply::is_sound(after.0)
            &&& stays_in_scope(after.0)
            &&& after.0.scope == apply.scope
            &&& same_elsewhere(apply.scope, known, after.1)
        },
    decreases events.len(),
{
    if events.len() > 0 {
        lemma_filtered_run(apply, known, options, events.drop_last());
        if let Some(before) = applied(apply, known, options, events.drop_last()) {
            if fits(before.0, before.1, events.last()) {
                lemma_stays_sound(before.0, before.1, options, events.last());
                lemma_filtered_event(before.0, before.1, options, events.last());
            }
        }
    }
}

/// A run that looks at some notes only leaves the cards of the others as they are.
pub proof fn law_filtered_run_leaves_other_notes(
    scope: ScopeModel,
    known: StateModel,
    options: OptionsModel,
    plan_events: Seq<PlanEvent>,
    plan: PlanModel,
    apply_events: Seq<ApplyEvent>,
    end: ApplyModel,
    recorded: StateModel,
)
    requires
        scope::identities_differ(scope.cards),
        scope.cards.len() <= usize::MAX,
        ids_are_plain(scope.cards),
        notes_are_known(scope),
        !options.dry_run,
        options.tag_filter is Some || options.note_filter is Some,
        sync_laws::planned(sync::first_plan(scope), known, options, plan_events) == Some(plan),
        sync_laws::is_complete(plan),
        applied(apply::first_apply(plan), known, options, apply_events) == Some((end, recorded)),
    ensures
        same_elsewhere(scope, known, recorded),
{
    sync_laws::lemma_planned(scope, known, options, plan_events);
    lemma_plan_stays_in_scope(plan, known, options);
    lemma_filtered_run(apply::first_apply(plan), known, options, apply_events);
}

/// A complete plan over notes without colons in their identifiers stays in its scope.
proof fn lemma_plan_stays_in_scope(plan: PlanModel, known: StateModel, options: OptionsModel)
    requires
        sync_laws::is_faithful(plan, known, options.config),
        sync_laws::is_complete(plan),
        notes_are_known(plan.scope),
        ids_are_plain(plan.scope.cards),
    ensures
        stays_in_scope(apply::first_apply(plan)),
{
    let apply = apply::first_apply(plan);
    assert forall|pending: AddModel| #[trigger]
        sync_laws::comes_from(plan, options.config, pending) implies plan.scope.tags.contains_key(
        pending.note_id,
    ) && !pending.note_id.contains(':') by {
        let j = choose|j: int|
            0 <= j < plan.next && sync_laws::stands_for(
                pending,
                #[trigger] plan.scope.cards[j],
                sync_laws::hash_at(plan, j, options.config),
            ) && plan.images.contains_key(plan.scope.cards[j].note_id);
        assert(plan.scope.tags.contains_key(plan.scope.cards[j].note_id));
    }
    assert forall|x: int| 0 <= x < apply.updates.len() implies {
        let note_id = (#[trigger] apply.updates[x]).card.note_id;
        apply.scope.tags.contains_key(note_id) && !note_id.contains(':')
    } by {
        assert(sync_laws::comes_from(plan, options.config, plan.updates[x].card));
    }
    assert forall|x: int| 0 <= x < apply.adds.len() implies {
        let note_id = (#[trigger] apply.adds[x]).note_id;
        apply.scope.tags.contains_key(note_id) && !note_id.contains(':')
    } by {
        assert(sync_laws::comes_from(plan, options.config, plan.adds[x]));
    }
}

pub proof fn lemma_dry_step(
    apply: ApplyModel,
    known: StateModel,
    listed: Seq<KnownCard>,
    options: OptionsModel,
)
    requires
        is_dry(apply),
        options.dry_run,
    ensures
        ({
            let outcome = apply::apply_step(apply, known, listed, options);
            &&& outcome.known == known
            &&& outcome.action is Continue || outcome.action is Done
            &&& is_dry(outcome.apply)
        }),
        !apply::awaits_outcomes(apply),
        !apply::awaits_ids(apply),
{
}

/// There is nothing to be changed.
pub open spec fn is_dry(apply: ApplyModel) -> bool {
    &&& apply::is_sound(apply)
    &&& apply.updates.len() == 0
    &&& apply.adds.len() == 0
    &&& !(apply.phase is Deleted)
}

proof fn lemma_dry_run(
    apply: ApplyModel,
    known: StateModel,
    options: OptionsModel,
    events: Seq<ApplyEvent>,
)
    requires
        is_dry(apply),
        options.dry_run,
    ensures
        applied(apply, known, options, events) matches Some(after) ==> is_dry(after.0) && after.1
            == known,
    decreases events.len(),
{
    if events.len() > 0 {
        lemma_dry_run(apply, known, options, events.drop_last());
        if let Some(before) = applied(apply, known, options, events.drop_last()) {
            if fits(before.0, before.1, events.last()) {
                lemma_dry_step(before.0, before.1, events.last()->Step_0, options);
            }
        }
    }
}

/// A dry run changes nothing: it uploads no image, records nothing, and its next step never asks
/// for a change in Anki or for the state to be saved.
pub proof fn law_dry_run_changes_nothing(
    scope: ScopeModel,
    known: StateModel,
    options: OptionsModel,
    plan_events: Seq<PlanEvent>,
    plan: PlanModel,
    apply_events: Seq<ApplyEvent>,
    end: ApplyModel,
    recorded: StateModel,
    listed: Seq<KnownCard>,
)
    requires
        scope::identities_differ(scope.cards),
        scope.cards.len() <= usize::MAX,
        options.dry_run,
        sync_laws::planned(sync::first_plan(scope), known, options, plan_events) == Some(plan),
        sync_laws::is_complete(plan),
        applied(apply::first_apply(plan), known, options, apply_events) == Some((end, recorded)),
    ensures
        plan.uploaded == Map::<Seq<char>, Seq<char>>::empty(),
        recorded == known,
        ({
            let action = apply::apply_step(end, recorded, listed, options).action;
            action is Continue || action is Done
        }),
{
    sync_laws::lemma_dry_plan(scope, known, options, plan_events);
    lemma_dry_run(apply::first_apply(plan), known, options, apply_events);
    lemma_dry_step(end, recorded, listed, options);
}

/// A deck is created only if it has not been created in the run; from then on it counts as
/// created.
pub proof fn law_decks_are_created_once(
    apply: ApplyModel,
    known: StateModel,
    listed: Seq<KnownCard>,
    options: OptionsModel,
)
    requires
        apply::is_sound(apply),
    ensures
        ({
            let outcome = apply::apply_step(apply, known, listed, options);
            &&& outcome.action matches ApplyActionModel::CreateDeck(deck) ==> {
                &&& !apply.decks.contains(deck)
                &&& outcome.apply.decks.contains(deck)
            }
            &&& forall|deck: Seq<char>| #[trigger]
                apply.decks.contains(deck) ==> outcome.apply.decks.contains(deck)
        }),
{
    let outcome = apply::apply_step(apply, known, listed, options);
    assert forall|deck: Seq<char>| #[trigger] apply.decks.contains(deck) implies
        outcome.apply.decks.contains(deck) by {
        let i = choose|i: int| 0 <= i < apply.decks.len() && apply.decks[i] == deck;
        assert(outcome.apply.decks[i] == deck);
    }
    if let ApplyActionModel::CreateDeck(deck) = outcome.action {
        assert(outcome.apply.decks[apply.decks.len() as int] == deck);
    }
}

/// The deck of the update is made sure of.
pub open spec fn has_update_deck(apply: ApplyModel, x: int) -> bool {
    apply.decks.contains(apply.updates[x].card.note.deck)
}

/// The deck of the addition is made sure of.
pub open spec fn has_add_deck(apply: ApplyModel, x: int) -> bool {
    apply.decks.contains(apply.adds[x].note.deck)
}

/// The decks have been made sure of that the changes have come to.
pub open spec fn decks_are_ready(apply: ApplyModel) -> bool {
    match apply.phase {
        PhaseModel::UpdateDecks(i) => forall|x: int|
            0 <= x < i ==> #[trigger] has_update_deck(apply, x),
        PhaseModel::AddDecks(i) => forall|x: int|
            0 <= x < i ==> #[trigger] has_add_deck(apply, x),
        PhaseModel::Adding(_) | PhaseModel::Added(_) | PhaseModel::AddSaved(_) => forall|x: int|
            0 <= x < apply.adds.len() ==> #[trigger] has_add_deck(apply, x),
        PhaseModel::Clearing
        | PhaseModel::Deleted(_)
        | PhaseModel::Finishing
        | PhaseModel::Done => true,
        _ => forall|x: int| 0 <= x < apply.updates.len() ==> #[trigger] has_update_deck(apply, x),
    }
}

/// A deck that has been made sure of stays so, and the one that the step is about is so after it.
proof fn lemma_deck_step(apply: ApplyModel, deck: Seq<char>, phase: PhaseModel, known: StateModel)
    ensures
        ({
            let more = apply::deck_step(apply, known, deck, phase).apply;
            &&& more.decks.contains(deck)
            &&& forall|d: Seq<char>| #[trigger]
                apply.decks.contains(d) ==> more.decks.contains(d)
        }),
{
    let more = apply::deck_step(apply, known, deck, phase).apply;
    if !apply.decks.contains(deck) {
        assert(more.decks[apply.decks.len() as int] == deck);
        assert forall|d: Seq<char>| #[trigger] apply.decks.contains(d) implies
            more.decks.contains(d) by {
            let i = choose|i: int| 0 <= i < apply.decks.len() && apply.decks[i] == d;
            assert(more.decks[i] == d);
        }
    }
}

/// A note is sent to Anki only once its deck has been made sure of: every deck of a note that is
/// added, added again or moved has been created in the run.
pub proof fn law_decks_come_before_their_notes(
    apply: ApplyModel,
    known: StateModel,
    options: OptionsModel,
    event: ApplyEvent,
    listed: Seq<KnownCard>,
)
    requires
        apply::is_sound(apply),
        decks_are_ready(apply),
        fits(apply, known, event),
    ensures
        decks_are_ready(after_event(apply, known, options, event).0),
        apply::apply_step(apply, known, listed, options).action matches ApplyActionModel::AddNotes(
            notes,
        ) ==> forall|k: int|
            0 <= k < notes.len() ==> apply.decks.contains((#[trigger] notes[k]).deck),
        apply::apply_step(apply, known, listed, options).action matches ApplyActionModel::MoveNotes(
            moves,
        ) ==> forall|k: int|
            0 <= k < moves.len() ==> apply.decks.contains((#[trigger] moves[k]).1),
{
    let more = after_event(apply, known, options, event).0;
    match apply.phase {
        PhaseModel::UpdateDecks(i) => {
            if i < apply.updates.len() {
                let deck = apply.updates[i].card.note.deck;
                lemma_deck_step(apply, deck, PhaseModel::UpdateDecks(i + 1), known);
                assert forall|x: int| 0 <= x < i + 1 implies #[trigger] has_update_deck(
                    more,
                    x,
                ) by {
                    if x < i {
                        assert(has_update_deck(apply, x));
                    }
                }
            } else {
                assert forall|x: int| 0 <= x < more.updates.len() implies
                    #[trigger] has_update_deck(more, x) by {
                    assert(has_update_deck(apply, x));
                }
            }
        },
        PhaseModel::AddDecks(i) => {
            if i < apply.adds.len() {
                let deck = apply.adds[i].note.deck;
                lemma_deck_step(apply, deck, PhaseModel::AddDecks(i + 1), known);
                assert forall|x: int| 0 <= x < i + 1 implies #[trigger] has_add_deck(more, x) by {
                    if x < i {
                        assert(has_add_deck(apply, x));
                    }
                }
            } else {
                assert forall|x: int| 0 <= x < more.adds.len() implies #[trigger] has_add_deck(
                    more,
                    x,
                ) by {
                    assert(has_add_deck(apply, x));
                }
            }
        },
        PhaseModel::Adding(from) => {
            assert forall|k: int| 0 <= k < apply::batch(apply.adds, from).len() implies
                apply.decks.contains((#[trigger] apply::batch(apply.adds, from)[k]).note.deck) by {
                assert(has_add_deck(apply, from + k));
            }
            assert forall|x: int| 0 <= x < apply.adds.len() && !(more.phase is Clearing) implies
                #[trigger] has_add_deck(more, x) by {
                assert(has_add_deck(apply, x));
            }
        },
        PhaseModel::Added(_) | PhaseModel::AddSaved(_) => {
            assert forall|x: int| 0 <= x < apply.adds.len() implies #[trigger] has_add_deck(
                more,
                x,
            ) by {
                assert(has_add_deck(apply, x));
            }
        },
        PhaseModel::Clearing
        | PhaseModel::Deleted(_)
        | PhaseModel::Finishing
        | PhaseModel::Done => {},
        _ => {
            assert forall|x: int| 0 <= x < apply.updates.len() && !(more.phase is AddDecks) implies
                #[trigger] has_update_deck(more, x) by {
                assert(has_update_deck(apply, x));
            }
            if let PhaseModel::Moving(from, found) = apply.phase {
                lemma_chosen_decks(apply, from, found, true);
            }
            if let PhaseModel::Readding(from, found) = apply.phase {
                lemma_chosen_decks(apply, from, found, false);
            }
        },
    }
}

/// The decks of a batch have been made sure of.
proof fn lemma_chosen_decks(apply: ApplyModel, from: int, found: Seq<bool>, wanted: bool)
    requires
        0 <= from < apply.updates.len(),
        found.len() <= apply::batch(apply.updates, from).len(),
        forall|x: int| 0 <= x < apply.updates.len() ==> #[trigger] has_update_deck(apply, x),
    ensures
        ({
            let some = apply::chosen(apply::batch(apply.updates, from), found, wanted);
            forall|k: int|
                0 <= k < some.len() ==> apply.decks.contains((#[trigger] some[k]).card.note.deck)
        }),
{
    let all = apply::batch(apply.updates, from);
    let some = apply::chosen(all, found, wanted);
    lemma_chosen(all, found, wanted);
    assert forall|k: int| 0 <= k < some.len() implies apply.decks.contains(
        (#[trigger] some[k]).card.note.deck,
    ) by {
        assert(all.contains(some[k]));
        let x = choose|x: int| 0 <= x < all.len() && all[x] == some[k];
        assert(has_update_deck(apply, from + x));
    }
}

} // verus!
