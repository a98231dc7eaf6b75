//! What becomes of each card in a run.

use vstd::prelude::*;

use crate::apply;
use crate::apply::{ApplyActionModel, ApplyModel, PhaseModel};
use crate::apply_laws;
use crate::apply_laws::ApplyEvent;
use crate::config::ConfigModel;
use crate::scope;
use crate::scope::ScopeModel;
use crate::state;
use crate::state::{KnownCard, StateModel};
use crate::sync;
use crate::sync::{AddModel, Decision, OptionsModel, PlanModel, UpdateModel};
use crate::sync_laws;
use crate::sync_laws::PlanEvent;

verus! {

// ── What is asked for, and what is answered ──────────────────────────────────

/// The requests after an event.
pub open spec fn requests_after(
    apply: ApplyModel,
    known: StateModel,
    options: OptionsModel,
    asked: Seq<ApplyActionModel>,
    event: ApplyEvent,
) -> Seq<ApplyActionModel> {
    match event {
        ApplyEvent::Step(listed) => asked.push(
            apply::apply_step(apply, known, listed, options).action,
        ),
        _ => asked,
    }
}

/// The event answers the last request, if it is a reply.
pub open spec fn answers(asked: Seq<ApplyActionModel>, event: ApplyEvent) -> bool {
    match event {
        ApplyEvent::Step(_) => true,
        ApplyEvent::Outcomes(_) => asked.len() > 0 && asked.last() is UpdateNotes,
        ApplyEvent::Ids(_) => asked.len() > 0 && asked.last() is AddNotes,
    }
}

/// What the steps of a run ask for, in their order.
pub open spec fn requests(
    apply: ApplyModel,
    known: StateModel,
    options: OptionsModel,
    events: Seq<ApplyEvent>,
) -> Seq<ApplyActionModel>
    decreases events.len(),
{
    if events.len() == 0 {
        Seq::empty()
    } else {
        let front = requests(apply, known, options, events.drop_last());
        match apply_laws::applied(apply, known, options, events.drop_last()) {
            Some(before) => requests_after(before.0, before.1, options, front, events.last()),
            None => front,
        }
    }
}

/// Each reply answers a request: the one that was made last.
pub open spec fn answers_requests(
    apply: ApplyModel,
    known: StateModel,
    options: OptionsModel,
    events: Seq<ApplyEvent>,
) -> bool
    decreases events.len(),
{
    events.len() > 0 ==> {
        let front = events.drop_last();
        &&& answers_requests(apply, known, options, front)
        &&& answers(requests(apply, known, options, front), events.last())
    }
}

/// Anki has the note of the card: no reply about a batch of updates says that it is missing.
pub open spec fn is_found(
    apply: ApplyModel,
    known: StateModel,
    options: OptionsModel,
    events: Seq<ApplyEvent>,
    key: Seq<char>,
) -> bool
    decreases events.len(),
{
    events.len() > 0 ==> {
        &&& is_found(apply, known, options, events.drop_last(), key)
        &&& match (
            apply_laws::applied(apply, known, options, events.drop_last()),
            events.last(),
        ) {
            (Some(before), ApplyEvent::Outcomes(outcomes)) => says_found(before.0, outcomes, key),
            _ => true,
        }
    }
}

/// The reply about a batch of updates does not say that the note of the card is missing.
pub open spec fn says_found(
    apply: ApplyModel,
    outcomes: Seq<Option<Seq<char>>>,
    key: Seq<char>,
) -> bool {
    forall|i: int|
        0 <= i < outcomes.len() && apply::pending_key(
            apply.updates[apply.phase->Updating_0 + i].card,
        ) == key ==> (#[trigger] outcomes[i]) is None
}

/// The number that a reply about some added notes gives the card; the last one, where there are
/// several.
pub open spec fn number_in(
    list: Seq<AddModel>,
    ids: Seq<u64>,
    count: nat,
    key: Seq<char>,
) -> Option<u64>
    decreases count,
{
    if count == 0 {
        None
    } else if apply::pending_key(list[count - 1]) == key {
        Some(ids[count - 1])
    } else {
        number_in(list, ids, (count - 1) as nat, key)
    }
}

/// The number that Anki gave the note of the card in the run, if it was added.
pub open spec fn number_given(
    apply: ApplyModel,
    known: StateModel,
    options: OptionsModel,
    events: Seq<ApplyEvent>,
    key: Seq<char>,
) -> Option<u64>
    decreases events.len(),
{
    if events.len() == 0 {
        None
    } else {
        let front = number_given(apply, known, options, events.drop_last(), key);
        match (apply_laws::applied(apply, known, options, events.drop_last()), events.last()) {
            (Some(before), ApplyEvent::Ids(ids)) => match number_in(
                apply::being_added(before.0),
                ids,
                ids.len(),
                key,
            ) {
                Some(number) => Some(number),
                None => front,
            },
            _ => front,
        }
    }
}

// ── Numbers ──────────────────────────────────────────────────────────────────

/// Digests are recorded without a change of the numbers.
proof fn lemma_hashes_keep_numbers(known: StateModel, list: Seq<AddModel>)
    ensures
        apply::with_hashes(known, list).cards == known.cards,
    decreases list.len(),
{
    if list.len() > 0 {
        lemma_hashes_keep_numbers(known, list.drop_last());
    }
}

/// The numbers of added notes are recorded, and no others.
proof fn lemma_numbers_recorded(
    known: StateModel,
    list: Seq<AddModel>,
    ids: Seq<u64>,
    count: nat,
    key: Seq<char>,
)
    ensures
        ({
            let after = apply::with_notes(known, list, ids, count);
            match number_in(list, ids, count, key) {
                Some(number) => after.cards.contains_key(key) && after.cards[key] == number,
                None => {
                    &&& after.cards.contains_key(key) == known.cards.contains_key(key)
                    &&& after.cards.contains_key(key) ==> after.cards[key] == known.cards[key]
                },
            }
        }),
    decreases count,
{
    if count > 0 {
        lemma_numbers_recorded(known, list, ids, (count - 1) as nat, key);
    }
}

/// A card that is tracked has the number that Anki gave its note in the run, or the one that it
/// had before.
pub proof fn law_numbers_come_from_anki(
    apply: ApplyModel,
    known: StateModel,
    options: OptionsModel,
    events: Seq<ApplyEvent>,
    key: Seq<char>,
)
    ensures
        apply_laws::applied(apply, known, options, events) matches Some(after)
            ==> after.1.cards.contains_key(key) ==> match number_given(
            apply,
            known,
            options,
            events,
            key,
        ) {
            Some(number) => after.1.cards[key] == number,
            None => known.cards.contains_key(key) && after.1.cards[key] == known.cards[key],
        },
    decreases events.len(),
{
    if events.len() > 0 {
        let front = events.drop_last();
        law_numbers_come_from_anki(apply, known, options, front, key);
        if let Some(before) = apply_laws::applied(apply, known, options, front) {
            match events.last() {
                ApplyEvent::Step(listed) => {
                    if let PhaseModel::Moved(from, found) = before.0.phase {
                        lemma_hashes_keep_numbers(
                            before.1,
                            apply::cards_of(
                                apply::chosen(apply::batch(before.0.updates, from), found, true),
                            ),
                        );
                    }
                    if let PhaseModel::Deleted(stale) = before.0.phase {
                        apply_laws::lemma_without(before.1, stale, key);
                    }
                },
                ApplyEvent::Outcomes(_) => {},
                ApplyEvent::Ids(ids) => {
                    lemma_numbers_recorded(
                        before.1,
                        apply::being_added(before.0),
                        ids,
                        ids.len(),
                        key,
                    );
                },
            }
        }
    }
}

// ── Cards that stay ──────────────────────────────────────────────────────────

/// A card of a batch whose note was found, or was not, is one of the batch.
proof fn lemma_chosen_from(list: Seq<UpdateModel>, found: Seq<bool>, wanted: bool)
    requires
        found.len() <= list.len(),
    ensures
        forall|y: int|
            0 <= y < apply::chosen(list, found, wanted).len() ==> is_chosen(
                list,
                found,
                wanted,
                #[trigger] apply::chosen(list, found, wanted)[y],
            ),
    decreases found.len(),
{
    if found.len() > 0 {
        let front = found.drop_last();
        lemma_chosen_from(list, front, wanted);
        let before = apply::chosen(list, front, wanted);
        let after = apply::chosen(list, found, wanted);
        assert forall|y: int| 0 <= y < after.len() implies is_chosen(
            list,
            found,
            wanted,
            #[trigger] after[y],
        ) by {
            if y < before.len() {
                assert(is_chosen(list, front, wanted, before[y]));
                let x = choose|x: int|
                    0 <= x < front.len() && front[x] == wanted && #[trigger] list[x] == before[y];
                assert(found[x] == wanted && list[x] == after[y]);
            } else {
                let x = found.len() - 1;
                assert(found[x] == wanted && list[x] == after[y]);
            }
        }
    }
}

/// The update is one of those whose note was found, or was not.
pub open spec fn is_chosen(
    list: Seq<UpdateModel>,
    found: Seq<bool>,
    wanted: bool,
    update: UpdateModel,
) -> bool {
    exists|x: int| 0 <= x < found.len() && found[x] == wanted && #[trigger] list[x] == update
}

/// The card stays with its number: it is not added, its note is found, and it is not deleted.
pub open spec fn is_kept(
    apply: ApplyModel,
    known: StateModel,
    key: Seq<char>,
    number: u64,
) -> bool {
    &&& known.cards.contains_key(key)
    &&& known.cards[key] == number
    &&& forall|x: int|
        0 <= x < apply.adds.len() ==> apply::pending_key(#[trigger] apply.adds[x]) != key
    &&& match apply.phase {
        PhaseModel::Moving(from, found)
        | PhaseModel::Moved(from, found)
        | PhaseModel::Readding(from, found) => was_found(apply.updates, from, found, key),
        PhaseModel::Deleted(stale) => !apply_laws::names_key(stale, key),
        _ => true,
    }
}

/// The note of the card was found, if it was in the batch that starts at `from`.
pub open spec fn was_found(
    updates: Seq<UpdateModel>,
    from: int,
    found: Seq<bool>,
    key: Seq<char>,
) -> bool {
    forall|i: int|
        0 <= i < found.len() && apply::pending_key(updates[from + i].card) == key
            ==> #[trigger] found[i]
}

/// A list that does not name the card gives it no number.
proof fn lemma_no_number(list: Seq<AddModel>, ids: Seq<u64>, count: nat, key: Seq<char>)
    requires
        count <= list.len(),
        forall|y: int| 0 <= y < list.len() ==> apply::pending_key(#[trigger] list[y]) != key,
    ensures
        number_in(list, ids, count, key) is None,
    decreases count,
{
    if count > 0 {
        lemma_no_number(list, ids, (count - 1) as nat, key);
    }
}

/// A card of the run is not among those that are to be deleted.
proof fn lemma_not_stale(
    scope: ScopeModel,
    known: StateModel,
    listed: Seq<KnownCard>,
    options: OptionsModel,
    j: int,
)
    requires
        state::lists_known(listed, known),
        apply_laws::ids_are_plain(scope.cards),
        0 <= j < scope.cards.len(),
    ensures
        !apply_laws::names_key(
            listed.filter(apply::is_stale(scope, options)),
            sync::scoped_key(scope.cards[j]),
        ),
{
    let pred = apply::is_stale(scope, options);
    let stale = listed.filter(pred);
    let card = scope.cards[j];
    if apply_laws::names_key(stale, sync::scoped_key(card)) {
        let x = choose|x: int|
            0 <= x < stale.len() && state::key_of((#[trigger] stale[x]).note_id, stale[x].fp)
                == sync::scoped_key(card);
        assert(stale.contains(stale[x]));
        listed.lemma_filter_contains_rev(pred, stale[x]);
        listed.lemma_filter_pred(pred, x);
        assert(state::is_known(known, stale[x]));
        state::law_keys_tell_cards_apart(
            stale[x].note_id,
            stale[x].fp,
            card.note_id,
            card.card.fingerprint,
        );
        assert(scope::identity(scope.cards[j]) == (stale[x].note_id, stale[x].fp));
    }
}

/// Each event keeps the card with its number.
proof fn lemma_kept(
    apply: ApplyModel,
    known: StateModel,
    options: OptionsModel,
    event: ApplyEvent,
    j: int,
    number: u64,
)
    requires
        apply::is_sound(apply),
        apply_laws::ids_are_plain(apply.scope.cards),
        0 <= j < apply.scope.cards.len(),
        apply_laws::fits(apply, known, event),
        is_kept(apply, known, sync::scoped_key(apply.scope.cards[j]), number),
        event matches ApplyEvent::Outcomes(outcomes) ==> says_found(
            apply,
            outcomes,
            sync::scoped_key(apply.scope.cards[j]),
        ),
    ensures
        ({
            let after = apply_laws::after_event(apply, known, options, event);
            is_kept(after.0, after.1, sync::scoped_key(apply.scope.cards[j]), number)
        }),
{
    let key = sync::scoped_key(apply.scope.cards[j]);
    match event {
        ApplyEvent::Step(listed) => {
            match apply.phase {
                PhaseModel::Moved(from, found) => {
                    lemma_hashes_keep_numbers(
                        known,
                        apply::cards_of(
                            apply::chosen(apply::batch(apply.updates, from), found, true),
                        ),
                    );
                },
                PhaseModel::Clearing => {
                    lemma_not_stale(apply.scope, known, listed, options, j);
                },
                PhaseModel::Deleted(stale) => {
                    apply_laws::lemma_without(known, stale, key);
                },
                _ => {},
            }
        },
        ApplyEvent::Outcomes(outcomes) => {
            let from = apply.phase->Updating_0;
            let found = apply::found_in(outcomes);
            assert forall|i: int|
                0 <= i < found.len() && apply::pending_key(apply.updates[from + i].card)
                    == key implies #[trigger] found[i] by {
                assert(outcomes[i] is None);
            }
        },
        ApplyEvent::Ids(ids) => {
            let list = apply::being_added(apply);
            if let PhaseModel::Readding(from, found) = apply.phase {
                let all = apply::batch(apply.updates, from);
                let lost = apply::chosen(all, found, false);
                lemma_chosen_from(all, found, false);
                assert forall|y: int| 0 <= y < list.len() implies apply::pending_key(
                    #[trigger] list[y],
                ) != key by {
                    assert(is_chosen(all, found, false, lost[y]));
                    let x = choose|x: int|
                        0 <= x < found.len() && found[x] == false && #[trigger] all[x] == lost[y];
                    assert(apply.updates[from + x].card == list[y]);
                    assert(!found[x]);
                }
            }
            if let PhaseModel::Adding(from) = apply.phase {
                assert forall|y: int| 0 <= y < list.len() implies apply::pending_key(
                    #[trigger] list[y],
                ) != key by {
                    assert(apply.adds[from + y] == list[y]);
                }
            }
            lemma_no_number(list, ids, ids.len(), key);
            lemma_numbers_recorded(known, list, ids, ids.len(), key);
        },
    }
}

/// A card that is kept before a run is kept throughout it.
proof fn lemma_run_keeps(
    apply: ApplyModel,
    known: StateModel,
    options: OptionsModel,
    events: Seq<ApplyEvent>,
    j: int,
    number: u64,
)
    requires
        apply::is_sound(apply),
        apply_laws::ids_are_plain(apply.scope.cards),
        0 <= j < apply.scope.cards.len(),
        is_kept(apply, known, sync::scoped_key(apply.scope.cards[j]), number),
        is_found(apply, known, options, events, sync::scoped_key(apply.scope.cards[j])),
    ensures
        apply_laws::applied(apply, known, options, events) matches Some(after) ==> {
            &&& apply::is_sound(after.0)
            &&& after.0.scope == apply.scope
            &&& after.0.updates == apply.updates
            &&& is_kept(after.0, after.1, sync::scoped_key(apply.scope.cards[j]), number)
        },
    decreases events.len(),
{
    if events.len() > 0 {
        let front = events.drop_last();
        lemma_run_keeps(apply, known, options, front, j, number);
        if let Some(before) = apply_laws::applied(apply, known, options, front) {
            if apply_laws::fits(before.0, before.1, events.last()) {
                apply_laws::lemma_stays_sound(before.0, before.1, options, events.last());
                lemma_kept(before.0, before.1, options, events.last(), j, number);
            }
        }
    }
}

/// A tracked card whose note Anki still has stays in that note: whatever of it has changed, it
/// keeps its number. It is neither added nor deleted.
pub proof fn law_tracked_cards_stay_in_their_notes(
    scope: ScopeModel,
    known: StateModel,
    options: OptionsModel,
    plan_events: Seq<PlanEvent>,
    plan: PlanModel,
    apply_events: Seq<ApplyEvent>,
    end: ApplyModel,
    recorded: StateModel,
    j: int,
)
    requires
        scope::identities_differ(scope.cards),
        scope.cards.len() <= usize::MAX,
        apply_laws::ids_are_plain(scope.cards),
        sync_laws::planned(sync::first_plan(scope), known, options, plan_events) == Some(plan),
        sync_laws::is_complete(plan),
        apply_laws::applied(apply::first_apply(plan), known, options, apply_events) == Some(
            (end, recorded),
        ),
        0 <= j < scope.cards.len(),
        known.cards.contains_key(sync::scoped_key(scope.cards[j])),
        is_found(
            apply::first_apply(plan),
            known,
            options,
            apply_events,
            sync::scoped_key(scope.cards[j]),
        ),
    ensures
        recorded.cards.contains_key(sync::scoped_key(scope.cards[j])),
        recorded.cards[sync::scoped_key(scope.cards[j])] == known.cards[sync::scoped_key(
            scope.cards[j],
        )],
        forall|x: int|
            0 <= x < plan.adds.len() ==> apply::pending_key(#[trigger] plan.adds[x])
                != sync::scoped_key(scope.cards[j]),
        end.phase matches PhaseModel::Deleted(stale) ==> !apply_laws::names_key(
            stale,
            sync::scoped_key(scope.cards[j]),
        ),
{
    let key = sync::scoped_key(scope.cards[j]);
    sync_laws::lemma_planned_sound(scope, known, options, plan_events);
    sync_laws::law_plan_keeps_the_numbers(scope, known, options, plan_events);
    lemma_run_keeps(
        apply::first_apply(plan),
        known,
        options,
        apply_events,
        j,
        known.cards[key],
    );
}

// ── What is asked of Anki ────────────────────────────────────────────────────

/// The request is one to update that note with that content.
pub open spec fn updates_note(action: ApplyActionModel, update: UpdateModel) -> bool {
    action matches ApplyActionModel::UpdateNotes(list) && list.contains(
        (update.anki_id, update.card.note),
    )
}

/// The request is one to move the cards of that note to the deck of the card.
pub open spec fn moves_note(action: ApplyActionModel, update: UpdateModel) -> bool {
    action matches ApplyActionModel::MoveNotes(list) && list.contains(
        (update.anki_id, update.card.note.deck),
    )
}

/// The request is one to add the note of the card.
pub open spec fn adds_note(action: ApplyActionModel, card: AddModel) -> bool {
    action matches ApplyActionModel::AddNotes(list) && list.contains(card.note)
}

/// The request is one to delete the note with that number.
pub open spec fn deletes_note(action: ApplyActionModel, number: u64) -> bool {
    action matches ApplyActionModel::DeleteNotes(list) && list.contains(number)
}

/// It was asked to update that note with that content.
pub open spec fn asks_update(asked: Seq<ApplyActionModel>, update: UpdateModel) -> bool {
    exists|n: int| 0 <= n < asked.len() && #[trigger] updates_note(asked[n], update)
}

/// It was asked to move the cards of that note to the deck of the card.
pub open spec fn asks_move(asked: Seq<ApplyActionModel>, update: UpdateModel) -> bool {
    exists|n: int| 0 <= n < asked.len() && #[trigger] moves_note(asked[n], update)
}

/// It was asked to add the note of the card.
pub open spec fn asks_addition(asked: Seq<ApplyActionModel>, card: AddModel) -> bool {
    exists|n: int| 0 <= n < asked.len() && #[trigger] adds_note(asked[n], card)
}

/// It was asked to delete the note with that number.
pub open spec fn asks_deletion(asked: Seq<ApplyActionModel>, number: u64) -> bool {
    exists|n: int| 0 <= n < asked.len() && #[trigger] deletes_note(asked[n], number)
}

/// What was asked for stays asked for.
proof fn lemma_asked(asked: Seq<ApplyActionModel>, action: ApplyActionModel)
    ensures
        forall|update: UpdateModel|
            asks_update(asked, update) || updates_note(action, update) ==> #[trigger] asks_update(
                asked.push(action),
                update,
            ),
        forall|update: UpdateModel|
            asks_move(asked, update) || moves_note(action, update) ==> #[trigger] asks_move(
                asked.push(action),
                update,
            ),
        forall|card: AddModel|
            asks_addition(asked, card) || adds_note(action, card) ==> #[trigger] asks_addition(
                asked.push(action),
                card,
            ),
        forall|number: u64|
            asks_deletion(asked, number) || deletes_note(action, number)
                ==> #[trigger] asks_deletion(asked.push(action), number),
{
    let more = asked.push(action);
    let last = asked.len() as int;
    assert(more[last] == action);
    assert forall|update: UpdateModel|
        asks_update(asked, update) || updates_note(action, update) implies #[trigger] asks_update(
        more,
        update,
    ) by {
        if asks_update(asked, update) {
            let n = choose|n: int|
                0 <= n < asked.len() && #[trigger] updates_note(asked[n], update);
            assert(updates_note(more[n], update));
        } else {
            assert(updates_note(more[last], update));
        }
    }
    assert forall|update: UpdateModel|
        asks_move(asked, update) || moves_note(action, update) implies #[trigger] asks_move(
        more,
        update,
    ) by {
        if asks_move(asked, update) {
            let n = choose|n: int| 0 <= n < asked.len() && #[trigger] moves_note(asked[n], update);
            assert(moves_note(more[n], update));
        } else {
            assert(moves_note(more[last], update));
        }
    }
    assert forall|card: AddModel|
        asks_addition(asked, card) || adds_note(action, card) implies #[trigger] asks_addition(
        more,
        card,
    ) by {
        if asks_addition(asked, card) {
            let n = choose|n: int| 0 <= n < asked.len() && #[trigger] adds_note(asked[n], card);
            assert(adds_note(more[n], card));
        } else {
            assert(adds_note(more[last], card));
        }
    }
    assert forall|number: u64|
        asks_deletion(asked, number) || deletes_note(action, number) implies
        #[trigger] asks_deletion(more, number) by {
        if asks_deletion(asked, number) {
            let n = choose|n: int|
                0 <= n < asked.len() && #[trigger] deletes_note(asked[n], number);
            assert(deletes_note(more[n], number));
        } else {
            assert(deletes_note(more[last], number));
        }
    }
}

/// The reply to the request with the update is known.
pub open spec fn is_sent(apply: ApplyModel, x: int) -> bool {
    match apply.phase {
        PhaseModel::UpdateDecks(_) => false,
        PhaseModel::Updating(from) => x < from,
        PhaseModel::Moving(from, _)
        | PhaseModel::Moved(from, _)
        | PhaseModel::Readding(from, _)
        | PhaseModel::Readded(from)
        | PhaseModel::Updated(from)
        | PhaseModel::UpdateSaved(from) => x < apply::batch_end(from, apply.updates.len()),
        _ => true,
    }
}

/// The cards of the note of the update are in their deck, if it was found.
pub open spec fn is_moved(apply: ApplyModel, x: int) -> bool {
    match apply.phase {
        PhaseModel::Moving(from, _) => x < from,
        _ => is_sent(apply, x),
    }
}

/// The updates whose replies are known were asked for.
pub open spec fn updates_were_asked(apply: ApplyModel, asked: Seq<ApplyActionModel>) -> bool {
    forall|x: int|
        0 <= x < apply.updates.len() && is_sent(apply, x) ==> asks_update(
            asked,
            #[trigger] apply.updates[x],
        )
}

/// The moves of the card were asked for.
pub open spec fn moves_were_asked(
    apply: ApplyModel,
    asked: Seq<ApplyActionModel>,
    key: Seq<char>,
) -> bool {
    forall|x: int|
        0 <= x < apply.updates.len() && is_moved(apply, x) && apply::pending_key(
            apply.updates[x].card,
        ) == key ==> asks_move(asked, #[trigger] apply.updates[x])
}

/// The additions whose replies are known were asked for.
pub open spec fn adds_were_asked(apply: ApplyModel, asked: Seq<ApplyActionModel>) -> bool {
    forall|x: int|
        0 <= x < apply.adds.len() && apply_laws::is_done_add(apply, x) ==> asks_addition(
            asked,
            #[trigger] apply.adds[x],
        )
}

/// A request that waits for its reply is the one that the phase asks for.
pub open spec fn last_request_fits(apply: ApplyModel, asked: Seq<ApplyActionModel>) -> bool {
    &&& apply.phase matches PhaseModel::Updating(from) ==> asked.len() > 0
        && asked.last() is UpdateNotes ==> asked.last() == ApplyActionModel::UpdateNotes(
        apply::update_requests(apply::batch(apply.updates, from)),
    )
    &&& apply.phase matches PhaseModel::Adding(from) ==> asked.len() > 0 && asked.last() is AddNotes
        ==> asked.last() == ApplyActionModel::AddNotes(
        apply::notes_of(apply::batch(apply.adds, from)),
    )
    &&& apply.phase matches PhaseModel::Readding(from, found) ==> asked.len() > 0
        && asked.last() is AddNotes ==> asked.last() == ApplyActionModel::AddNotes(
        apply::notes_of(apply::being_added(apply)),
    )
    &&& apply.phase matches PhaseModel::Moving(from, found) ==> found.len() == apply::batch(
        apply.updates,
        from,
    ).len()
}

/// The requests so far are those that the changes so far call for.
pub open spec fn is_asked_for(
    apply: ApplyModel,
    asked: Seq<ApplyActionModel>,
    key: Seq<char>,
) -> bool {
    &&& updates_were_asked(apply, asked)
    &&& moves_were_asked(apply, asked, key)
    &&& adds_were_asked(apply, asked)
    &&& last_request_fits(apply, asked)
}

/// Each event leaves the requests that the changes so far call for.
proof fn lemma_asked_for(
    apply: ApplyModel,
    known: StateModel,
    options: OptionsModel,
    asked: Seq<ApplyActionModel>,
    event: ApplyEvent,
    key: Seq<char>,
)
    requires
        apply::is_sound(apply),
        apply_laws::fits(apply, known, event),
        is_asked_for(apply, asked, key),
        answers(asked, event),
        apply.phase matches PhaseModel::Moving(from, found) ==> was_found(
            apply.updates,
            from,
            found,
            key,
        ),
    ensures
        is_asked_for(
            apply_laws::after_event(apply, known, options, event).0,
            requests_after(apply, known, options, asked, event),
            key,
        ),
{
    let more = apply_laws::after_event(apply, known, options, event).0;
    match event {
        ApplyEvent::Step(listed) => {
            let action = apply::apply_step(apply, known, listed, options).action;
            lemma_asked(asked, action);
            if let PhaseModel::Moving(from, found) = apply.phase {
                let all = apply::batch(apply.updates, from);
                let kept = apply::chosen(all, found, true);
                apply_laws::lemma_chosen(all, found, true);
                assert forall|x: int|
                    0 <= x < more.updates.len() && is_moved(more, x) && apply::pending_key(
                        more.updates[x].card,
                    ) == key implies asks_move(asked.push(action), #[trigger] more.updates[x]) by {
                    if x >= from {
                        let update = apply.updates[x];
                        assert(all[x - from] == update);
                        assert(found[x - from]);
                        assert(kept.contains(all[x - from]));
                        let y = choose|y: int| 0 <= y < kept.len() && kept[y] == update;
                        assert(apply::moves_of(kept)[y] == (update.anki_id, update.card.note.deck));
                        assert(moves_note(action, update));
                    } else {
                        assert(asks_move(asked, apply.updates[x]));
                    }
                }
            } else {
                assert forall|x: int|
                    0 <= x < more.updates.len() && is_moved(more, x) && apply::pending_key(
                        more.updates[x].card,
                    ) == key implies asks_move(asked.push(action), #[trigger] more.updates[x]) by {
                    assert(is_moved(apply, x));
                    assert(asks_move(asked, apply.updates[x]));
                }
            }
            assert forall|x: int| 0 <= x < more.updates.len() && is_sent(more, x) implies
                asks_update(asked.push(action), #[trigger] more.updates[x]) by {
                assert(is_sent(apply, x));
                assert(asks_update(asked, apply.updates[x]));
            }
            assert forall|x: int|
                0 <= x < more.adds.len() && apply_laws::is_done_add(more, x) implies asks_addition(
                asked.push(action),
                #[trigger] more.adds[x],
            ) by {
                assert(apply_laws::is_done_add(apply, x));
                assert(asks_addition(asked, apply.adds[x]));
            }
        },
        ApplyEvent::Outcomes(outcomes) => {
            let from = apply.phase->Updating_0;
            let last = asked.len() - 1;
            let list = apply::update_requests(apply::batch(apply.updates, from));
            assert(asked[last] == ApplyActionModel::UpdateNotes(list));
            assert forall|x: int| 0 <= x < more.updates.len() && is_sent(more, x) implies
                asks_update(asked, #[trigger] more.updates[x]) by {
                let update = apply.updates[x];
                if x >= from {
                    assert(apply::batch(apply.updates, from)[x - from] == update);
                    assert(list[x - from] == (update.anki_id, update.card.note));
                    assert(updates_note(asked[last], update));
                }
            }
        },
        ApplyEvent::Ids(ids) => {
            if let PhaseModel::Adding(from) = apply.phase {
                let last = asked.len() - 1;
                let list = apply::notes_of(apply::batch(apply.adds, from));
                assert(asked[last] == ApplyActionModel::AddNotes(list));
                assert forall|x: int|
                    0 <= x < more.adds.len() && apply_laws::is_done_add(more, x) implies
                    asks_addition(asked, #[trigger] more.adds[x]) by {
                    let card = apply.adds[x];
                    if x >= from {
                        assert(apply::batch(apply.adds, from)[x - from] == card);
                        assert(list[x - from] == card.note);
                        assert(adds_note(asked[last], card));
                    }
                }
            }
        },
    }
}

/// The requests of a run are those that its changes call for.
proof fn lemma_run_asks(
    apply: ApplyModel,
    known: StateModel,
    options: OptionsModel,
    events: Seq<ApplyEvent>,
    key: Seq<char>,
)
    requires
        apply::is_sound(apply),
        is_asked_for(apply, Seq::empty(), key),
        !(apply.phase is Moving),
        answers_requests(apply, known, options, events),
        is_found(apply, known, options, events, key),
    ensures
        apply_laws::applied(apply, known, options, events) matches Some(after) ==> {
            &&& apply::is_sound(after.0)
            &&& after.0.updates == apply.updates
            &&& after.0.adds == apply.adds
            &&& is_asked_for(after.0, requests(apply, known, options, events), key)
            &&& after.0.phase matches PhaseModel::Moving(from, found) ==> was_found(
                apply.updates,
                from,
                found,
                key,
            )
        },
    decreases events.len(),
{
    if events.len() > 0 {
        let front = events.drop_last();
        lemma_run_asks(apply, known, options, front, key);
        if let Some(before) = apply_laws::applied(apply, known, options, front) {
            if apply_laws::fits(before.0, before.1, events.last()) {
                let asked = requests(apply, known, options, front);
                apply_laws::lemma_stays_sound(before.0, before.1, options, events.last());
                lemma_asked_for(before.0, before.1, options, asked, events.last(), key);
                if let ApplyEvent::Outcomes(outcomes) = events.last() {
                    let from = before.0.phase->Updating_0;
                    let found = apply::found_in(outcomes);
                    assert forall|i: int|
                        0 <= i < found.len() && apply::pending_key(apply.updates[from + i].card)
                            == key implies #[trigger] found[i] by {
                        assert(outcomes[i] is None);
                    }
                }
            }
        }
    }
}

/// No reply speaks of a card that is not updated.
proof fn lemma_found(
    apply: ApplyModel,
    known: StateModel,
    options: OptionsModel,
    events: Seq<ApplyEvent>,
    key: Seq<char>,
)
    requires
        apply::is_sound(apply),
        forall|x: int|
            0 <= x < apply.updates.len() ==> apply::pending_key((#[trigger] apply.updates[x]).card)
                != key,
        apply_laws::applied(apply, known, options, events) is Some,
    ensures
        is_found(apply, known, options, events, key),
        apply_laws::applied(apply, known, options, events) matches Some(after) ==> {
            &&& apply::is_sound(after.0)
            &&& after.0.updates == apply.updates
        },
    decreases events.len(),
{
    if events.len() > 0 {
        let front = events.drop_last();
        lemma_found(apply, known, options, front, key);
        if let Some(before) = apply_laws::applied(apply, known, options, front) {
            apply_laws::lemma_stays_sound(before.0, before.1, options, events.last());
            if let ApplyEvent::Outcomes(outcomes) = events.last() {
                let from = before.0.phase->Updating_0;
                assert forall|i: int|
                    0 <= i < outcomes.len() && apply::pending_key(
                        before.0.updates[from + i].card,
                    ) == key implies (#[trigger] outcomes[i]) is None by {
                    assert(apply::pending_key(apply.updates[from + i].card) != key);
                }
            }
        }
    }
}

/// It was asked to update that note with the content of the card, and to move the cards of the
/// note to the deck of the card.
pub open spec fn is_sent_to(
    asked: Seq<ApplyActionModel>,
    plan: PlanModel,
    config: ConfigModel,
    j: int,
    number: u64,
) -> bool {
    exists|update: UpdateModel|
        {
            &&& plan.updates.contains(update)
            &&& update.anki_id == number
            &&& sync_laws::is_pending(update.card, plan, config, j)
            &&& update.card.note.deck == plan.scope.cards[j].card.deck
            &&& #[trigger] asks_update(asked, update)
            &&& asks_move(asked, update)
        }
}

/// It was asked to add a note with the content of the card, in the deck of the card.
pub open spec fn is_sent_anew(
    asked: Seq<ApplyActionModel>,
    plan: PlanModel,
    config: ConfigModel,
    j: int,
) -> bool {
    exists|card: AddModel|
        {
            &&& plan.adds.contains(card)
            &&& sync_laws::is_pending(card, plan, config, j)
            &&& card.note.deck == plan.scope.cards[j].card.deck
            &&& #[trigger] asks_addition(asked, card)
        }
}

/// A tracked card that has changed is updated in place, and moved to its deck: in a run that
/// succeeds, its note is sent the content of the card and the cards of the note are sent to the
/// deck of the card, where Anki still has the note. The card keeps its number.
pub proof fn law_changed_cards_are_updated_in_place(
    scope: ScopeModel,
    known: StateModel,
    options: OptionsModel,
    plan_events: Seq<PlanEvent>,
    plan: PlanModel,
    apply_events: Seq<ApplyEvent>,
    end: ApplyModel,
    recorded: StateModel,
    j: int,
    number: u64,
)
    requires
        scope::identities_differ(scope.cards),
        scope.cards.len() <= usize::MAX,
        apply_laws::ids_are_plain(scope.cards),
        !options.dry_run,
        sync_laws::planned(sync::first_plan(scope), known, options, plan_events) == Some(plan),
        sync_laws::is_complete(plan),
        apply_laws::applied(apply::first_apply(plan), known, options, apply_events) == Some(
            (end, recorded),
        ),
        answers_requests(apply::first_apply(plan), known, options, apply_events),
        end.phase is Done,
        0 <= j < scope.cards.len(),
        sync_laws::decision_at(plan, known, options, j) == Decision::Update(number),
        is_found(
            apply::first_apply(plan),
            known,
            options,
            apply_events,
            sync::scoped_key(scope.cards[j]),
        ),
    ensures
        is_sent_to(
            requests(apply::first_apply(plan), known, options, apply_events),
            plan,
            options.config,
            j,
            number,
        ),
        recorded.cards.contains_key(sync::scoped_key(scope.cards[j])),
        recorded.cards[sync::scoped_key(scope.cards[j])] == number,
{
    let key = sync::scoped_key(scope.cards[j]);
    let first = apply::first_apply(plan);
    sync_laws::law_plan_holds_what_was_decided(scope, known, options, plan_events);
    assert(sync_laws::is_carried_out(plan, known, options, j));
    let x = choose|x: int|
        0 <= x < plan.updates.len() && (#[trigger] plan.updates[x]).anki_id == number
            && sync_laws::is_pending(plan.updates[x].card, plan, options.config, j);
    lemma_run_asks(first, known, options, apply_events, key);
    let update = end.updates[x];
    assert(is_sent(end, x) && is_moved(end, x));
    assert(asks_update(requests(first, known, options, apply_events), update));
    law_tracked_cards_stay_in_their_notes(
        scope,
        known,
        options,
        plan_events,
        plan,
        apply_events,
        end,
        recorded,
        j,
    );
}

/// A card that is not tracked is added: in a run that succeeds, its note is sent to Anki, and the
/// card is tracked with the number that Anki gave the note.
pub proof fn law_new_cards_are_added(
    scope: ScopeModel,
    known: StateModel,
    options: OptionsModel,
    plan_events: Seq<PlanEvent>,
    plan: PlanModel,
    apply_events: Seq<ApplyEvent>,
    end: ApplyModel,
    recorded: StateModel,
    j: int,
)
    requires
        scope::identities_differ(scope.cards),
        scope.cards.len() <= usize::MAX,
        apply_laws::ids_are_plain(scope.cards),
        !options.dry_run,
        sync_laws::planned(sync::first_plan(scope), known, options, plan_events) == Some(plan),
        sync_laws::is_complete(plan),
        apply_laws::applied(apply::first_apply(plan), known, options, apply_events) == Some(
            (end, recorded),
        ),
        answers_requests(apply::first_apply(plan), known, options, apply_events),
        end.phase is Done,
        0 <= j < scope.cards.len(),
        !known.cards.contains_key(sync::scoped_key(scope.cards[j])),
    ensures
        is_sent_anew(
            requests(apply::first_apply(plan), known, options, apply_events),
            plan,
            options.config,
            j,
        ),
        recorded.cards.contains_key(sync::scoped_key(scope.cards[j])),
        number_given(
            apply::first_apply(plan),
            known,
            options,
            apply_events,
            sync::scoped_key(scope.cards[j]),
        ) == Some(recorded.cards[sync::scoped_key(scope.cards[j])]),
{
    let key = sync::scoped_key(scope.cards[j]);
    let first = apply::first_apply(plan);
    sync_laws::law_plan_holds_what_was_decided(scope, known, options, plan_events);
    sync_laws::law_plan_keeps_the_numbers(scope, known, options, plan_events);
    assert(sync_laws::is_carried_out(plan, known, options, j));
    let x = choose|x: int|
        0 <= x < plan.adds.len() && sync_laws::is_pending(
            #[trigger] plan.adds[x],
            plan,
            options.config,
            j,
        );
    lemma_found(first, known, options, apply_events, key);
    lemma_run_asks(first, known, options, apply_events, key);
    assert(apply_laws::is_done_add(end, x));
    assert(asks_addition(requests(first, known, options, apply_events), end.adds[x]));
    apply_laws::law_finished_run_mirrors_the_notes(
        scope,
        known,
        options,
        plan_events,
        plan,
        apply_events,
        end,
        recorded,
    );
    assert(sync_laws::is_settled(
        recorded,
        scope.cards[j],
        sync_laws::hash_at(plan, j, options.config),
    ));
    law_numbers_come_from_anki(first, known, options, apply_events, key);
}

// ── Cards whose notes are missing ────────────────────────────────────────────

/// It was asked to add a note of that card of the plan anew.
pub open spec fn is_readded(
    asked: Seq<ApplyActionModel>,
    updates: Seq<UpdateModel>,
    key: Seq<char>,
) -> bool {
    exists|x: int|
        0 <= x < updates.len() && apply::pending_key((#[trigger] updates[x]).card) == key
            && asks_addition(asked, updates[x].card)
}

/// The note of the card is missing, and is about to be added anew.
pub open spec fn is_being_readded(apply: ApplyModel, key: Seq<char>) -> bool {
    match apply.phase {
        PhaseModel::Moving(from, found)
        | PhaseModel::Moved(from, found)
        | PhaseModel::Readding(from, found) => !was_found(apply.updates, from, found, key),
        _ => false,
    }
}

/// A reply about added notes that names the card gives it a number.
proof fn lemma_number_in(
    list: Seq<AddModel>,
    ids: Seq<u64>,
    count: nat,
    key: Seq<char>,
    y: int,
)
    requires
        0 <= y < count,
        apply::pending_key(list[y]) == key,
    ensures
        number_in(list, ids, count, key) is Some,
    decreases count,
{
    if apply::pending_key(list[count - 1]) != key {
        lemma_number_in(list, ids, (count - 1) as nat, key, y);
    }
}

/// One of the missing notes of a batch is that of the card.
proof fn lemma_lost(
    updates: Seq<UpdateModel>,
    from: int,
    found: Seq<bool>,
    key: Seq<char>,
) -> (place: (int, int))
    requires
        0 <= from < updates.len(),
        found.len() <= apply::batch(updates, from).len(),
        !was_found(updates, from, found, key),
    ensures
        ({
            let lost = apply::chosen(apply::batch(updates, from), found, false);
            &&& 0 <= place.0 < updates.len()
            &&& apply::pending_key(updates[place.0].card) == key
            &&& 0 <= place.1 < lost.len()
            &&& lost[place.1] == updates[place.0]
        }),
{
    let all = apply::batch(updates, from);
    let lost = apply::chosen(all, found, false);
    let i = choose|i: int|
        0 <= i < found.len() && apply::pending_key(updates[from + i].card) == key
            && !(#[trigger] found[i]);
    apply_laws::lemma_chosen(all, found, false);
    assert(all[i] == updates[from + i]);
    assert(lost.contains(all[i]));
    let y = choose|y: int| 0 <= y < lost.len() && lost[y] == all[i];
    (from + i, y)
}

/// Each event takes a card whose note is missing towards its new note.
proof fn lemma_readding(
    apply: ApplyModel,
    known: StateModel,
    options: OptionsModel,
    asked: Seq<ApplyActionModel>,
    event: ApplyEvent,
    key: Seq<char>,
)
    requires
        apply::is_sound(apply),
        apply_laws::fits(apply, known, event),
        last_request_fits(apply, asked),
        answers(asked, event),
        is_being_readded(apply, key),
    ensures
        ({
            let more = apply_laws::after_event(apply, known, options, event).0;
            is_being_readded(more, key) || {
                &&& is_readded(asked, apply.updates, key)
                &&& event matches ApplyEvent::Ids(ids) && number_in(
                    apply::being_added(apply),
                    ids,
                    ids.len(),
                    key,
                ) is Some
            }
        }),
{
    match apply.phase {
        PhaseModel::Moved(from, found) => {
            let (_, _) = lemma_lost(apply.updates, from, found, key);
        },
        PhaseModel::Readding(from, found) => {
            if let ApplyEvent::Ids(ids) = event {
                let (x, y) = lemma_lost(apply.updates, from, found, key);
                let list = apply::being_added(apply);
                let last = asked.len() - 1;
                let notes = apply::notes_of(list);
                assert(list[y] == apply.updates[x].card);
                assert(asked[last] == ApplyActionModel::AddNotes(notes));
                assert(notes[y] == apply.updates[x].card.note);
                assert(adds_note(asked[last], apply.updates[x].card));
                lemma_number_in(list, ids, ids.len(), key, y);
            }
        },
        _ => {},
    }
}

/// The last request of a run is the one that its phase asks for.
proof fn lemma_last_request(
    apply: ApplyModel,
    known: StateModel,
    options: OptionsModel,
    asked: Seq<ApplyActionModel>,
    event: ApplyEvent,
)
    requires
        apply::is_sound(apply),
        apply_laws::fits(apply, known, event),
        last_request_fits(apply, asked),
    ensures
        last_request_fits(
            apply_laws::after_event(apply, known, options, event).0,
            requests_after(apply, known, options, asked, event),
        ),
{
}

/// A card whose note was called missing is on the way to its new note, or has it.
proof fn lemma_run_readds(
    apply: ApplyModel,
    known: StateModel,
    options: OptionsModel,
    events: Seq<ApplyEvent>,
    key: Seq<char>,
)
    requires
        apply::is_sound(apply),
        apply.phase is UpdateDecks,
        answers_requests(apply, known, options, events),
    ensures
        apply_laws::applied(apply, known, options, events) matches Some(after) ==> {
            let asked = requests(apply, known, options, events);
            &&& apply::is_sound(after.0)
            &&& after.0.updates == apply.updates
            &&& last_request_fits(after.0, asked)
            &&& is_found(apply, known, options, events, key) || is_being_readded(after.0, key) || {
                &&& is_readded(asked, apply.updates, key)
                &&& number_given(apply, known, options, events, key) is Some
            }
        },
    decreases events.len(),
{
    if events.len() > 0 {
        let front = events.drop_last();
        let event = events.last();
        lemma_run_readds(apply, known, options, front, key);
        if let Some(before) = apply_laws::applied(apply, known, options, front) {
            if apply_laws::fits(before.0, before.1, event) {
                let asked = requests(apply, known, options, front);
                let more = apply_laws::after_event(before.0, before.1, options, event).0;
                apply_laws::lemma_stays_sound(before.0, before.1, options, event);
                lemma_last_request(before.0, before.1, options, asked, event);
                if is_being_readded(before.0, key) {
                    lemma_readding(before.0, before.1, options, asked, event, key);
                }
                if let ApplyEvent::Step(listed) = event {
                    lemma_asked(
                        asked,
                        apply::apply_step(before.0, before.1, listed, options).action,
                    );
                }
                if let ApplyEvent::Outcomes(outcomes) = event {
                    if !says_found(before.0, outcomes, key) {
                        let from = before.0.phase->Updating_0;
                        let found = apply::found_in(outcomes);
                        let i = choose|i: int|
                            0 <= i < outcomes.len() && apply::pending_key(
                                before.0.updates[from + i].card,
                            ) == key && !((#[trigger] outcomes[i]) is None);
                        assert(!found[i]);
                        assert(is_being_readded(more, key));
                    }
                }
                if is_readded(asked, apply.updates, key) {
                    let x = choose|x: int|
                        0 <= x < apply.updates.len() && apply::pending_key(
                            (#[trigger] apply.updates[x]).card,
                        ) == key && asks_addition(asked, apply.updates[x].card);
                    assert(asks_addition(
                        requests(apply, known, options, events),
                        apply.updates[x].card,
                    ));
                }
            }
        }
    }
}

/// A tracked card whose note Anki no longer has is added anew: in a run that succeeds, its note is
/// sent to Anki, and the card is tracked with the number that Anki gave the new note.
pub proof fn law_missing_notes_are_added_anew(
    scope: ScopeModel,
    known: StateModel,
    options: OptionsModel,
    plan_events: Seq<PlanEvent>,
    plan: PlanModel,
    apply_events: Seq<ApplyEvent>,
    end: ApplyModel,
    recorded: StateModel,
    j: int,
)
    requires
        scope::identities_differ(scope.cards),
        scope.cards.len() <= usize::MAX,
        apply_laws::ids_are_plain(scope.cards),
        !options.dry_run,
        sync_laws::planned(sync::first_plan(scope), known, options, plan_events) == Some(plan),
        sync_laws::is_complete(plan),
        apply_laws::applied(apply::first_apply(plan), known, options, apply_events) == Some(
            (end, recorded),
        ),
        answers_requests(apply::first_apply(plan), known, options, apply_events),
        end.phase is Done,
        0 <= j < scope.cards.len(),
        !is_found(
            apply::first_apply(plan),
            known,
            options,
            apply_events,
            sync::scoped_key(scope.cards[j]),
        ),
    ensures
        exists|x: int|
            {
                &&& 0 <= x < plan.updates.len()
                &&& sync_laws::is_pending(
                    (#[trigger] plan.updates[x]).card,
                    plan,
                    options.config,
                    j,
                )
                &&& asks_addition(
                    requests(apply::first_apply(plan), known, options, apply_events),
                    plan.updates[x].card,
                )
            },
        recorded.cards.contains_key(sync::scoped_key(scope.cards[j])),
        number_given(
            apply::first_apply(plan),
            known,
            options,
            apply_events,
            sync::scoped_key(scope.cards[j]),
        ) == Some(recorded.cards[sync::scoped_key(scope.cards[j])]),
{
    let key = sync::scoped_key(scope.cards[j]);
    let first = apply::first_apply(plan);
    let config = options.config;
    sync_laws::law_plan_holds_what_was_decided(scope, known, options, plan_events);
    sync_laws::law_changes_are_of_cards(scope, known, options, plan_events);
    lemma_run_readds(first, known, options, apply_events, key);
    let asked = requests(first, known, options, apply_events);
    let x = choose|x: int|
        0 <= x < first.updates.len() && apply::pending_key((#[trigger] first.updates[x]).card)
            == key && asks_addition(asked, first.updates[x].card);
    let pending = plan.updates[x].card;
    assert(sync_laws::is_of_a_card(pending, plan, config));
    let i = choose|i: int|
        0 <= i < plan.next && plan.images.contains_key(
            (#[trigger] plan.scope.cards[i]).note_id,
        ) && sync_laws::is_pending(pending, plan, config, i);
    apply_laws::lemma_keys_differ(scope.cards, i, j);
    apply_laws::law_finished_run_mirrors_the_notes(
        scope,
        known,
        options,
        plan_events,
        plan,
        apply_events,
        end,
        recorded,
    );
    assert(sync_laws::is_settled(recorded, scope.cards[j], sync_laws::hash_at(plan, j, config)));
    law_numbers_come_from_anki(first, known, options, apply_events, key);
}

// ── Cards that go ────────────────────────────────────────────────────────────

/// No change is one of the card.
pub open spec fn is_left_alone(apply: ApplyModel, key: Seq<char>) -> bool {
    &&& forall|x: int|
        0 <= x < apply.updates.len() ==> apply::pending_key((#[trigger] apply.updates[x]).card)
            != key
    &&& forall|x: int|
        0 <= x < apply.adds.len() ==> apply::pending_key(#[trigger] apply.adds[x]) != key
}

/// Until cards are deleted, a card that no change is about stays tracked as it is, or untracked.
pub proof fn lemma_other_card(
    apply: ApplyModel,
    known: StateModel,
    options: OptionsModel,
    event: ApplyEvent,
    key: Seq<char>,
)
    requires
        apply::is_sound(apply),
        apply_laws::fits(apply, known, event),
        is_left_alone(apply, key),
        !(apply.phase is Deleted),
    ensures
        ({
            let after = apply_laws::after_event(apply, known, options, event).1;
            &&& after.cards.contains_key(key) == known.cards.contains_key(key)
            &&& known.cards.contains_key(key) ==> after.cards[key] == known.cards[key]
        }),
{
    match event {
        ApplyEvent::Step(_) => {
            if let PhaseModel::Moved(from, found) = apply.phase {
                lemma_hashes_keep_numbers(
                    known,
                    apply::cards_of(
                        apply::chosen(apply::batch(apply.updates, from), found, true),
                    ),
                );
            }
        },
        ApplyEvent::Outcomes(_) => {},
        ApplyEvent::Ids(ids) => {
            let list = apply::being_added(apply);
            if let PhaseModel::Readding(from, found) = apply.phase {
                let all = apply::batch(apply.updates, from);
                let lost = apply::chosen(all, found, false);
                lemma_chosen_from(all, found, false);
                assert forall|y: int| 0 <= y < list.len() implies apply::pending_key(
                    #[trigger] list[y],
                ) != key by {
                    assert(is_chosen(all, found, false, lost[y]));
                    let x = choose|x: int|
                        0 <= x < found.len() && found[x] == false && #[trigger] all[x] == lost[y];
                    assert(apply.updates[from + x].card == list[y]);
                }
            }
            if let PhaseModel::Adding(from) = apply.phase {
                assert forall|y: int| 0 <= y < list.len() implies apply::pending_key(
                    #[trigger] list[y],
                ) != key by {
                    assert(apply.adds[from + y] == list[y]);
                }
            }
            lemma_no_number(list, ids, ids.len(), key);
            lemma_numbers_recorded(known, list, ids, ids.len(), key);
        },
    }
}

/// No change of a complete plan is one of a card that is not a card of the run.
pub proof fn lemma_left_alone(
    plan: PlanModel,
    known: StateModel,
    options: OptionsModel,
    card: KnownCard,
)
    requires
        sync_laws::is_faithful(plan, known, options.config),
        sync_laws::is_complete(plan),
        apply_laws::ids_are_plain(plan.scope.cards),
        !card.note_id.contains(':'),
        !scope::in_scope(plan.scope.cards, (card.note_id, card.fp)),
    ensures
        is_left_alone(apply::first_apply(plan), state::key_of(card.note_id, card.fp)),
{
    let first = apply::first_apply(plan);
    let key = state::key_of(card.note_id, card.fp);
    assert forall|pending: AddModel| #[trigger]
        sync_laws::comes_from(plan, options.config, pending) implies apply::pending_key(pending)
        != key by {
        let j = choose|j: int|
            0 <= j < plan.next && sync_laws::stands_for(
                pending,
                #[trigger] plan.scope.cards[j],
                sync_laws::hash_at(plan, j, options.config),
            ) && plan.images.contains_key(plan.scope.cards[j].note_id);
        if apply::pending_key(pending) == key {
            state::law_keys_tell_cards_apart(pending.note_id, pending.fp, card.note_id, card.fp);
            assert(scope::identity(plan.scope.cards[j]) == (card.note_id, card.fp));
        }
    }
    assert forall|x: int| 0 <= x < first.updates.len() implies apply::pending_key(
        (#[trigger] first.updates[x]).card,
    ) != key by {
        assert(sync_laws::comes_from(plan, options.config, plan.updates[x].card));
    }
    assert forall|x: int| 0 <= x < first.adds.len() implies apply::pending_key(
        #[trigger] first.adds[x],
    ) != key by {
        assert(sync_laws::comes_from(plan, options.config, plan.adds[x]));
    }
}

/// The card is still tracked, and goes once the run has come to that.
pub open spec fn is_going(
    apply: ApplyModel,
    known: StateModel,
    asked: Seq<ApplyActionModel>,
    card: KnownCard,
) -> bool {
    let key = state::key_of(card.note_id, card.fp);
    &&& is_left_alone(apply, key)
    &&& match apply.phase {
        PhaseModel::Deleted(stale) => stale.contains(card) && asks_deletion(asked, card.anki_id),
        PhaseModel::Finishing | PhaseModel::Done => !known.cards.contains_key(key)
            && asks_deletion(asked, card.anki_id),
        _ => state::is_known(known, card),
    }
}

proof fn lemma_going(
    apply: ApplyModel,
    known: StateModel,
    options: OptionsModel,
    asked: Seq<ApplyActionModel>,
    event: ApplyEvent,
    card: KnownCard,
)
    requires
        apply::is_sound(apply),
        apply_laws::fits(apply, known, event),
        is_going(apply, known, asked, card),
        apply_laws::looks_at(apply.scope, options, card.note_id),
        !scope::in_scope(apply.scope.cards, (card.note_id, card.fp)),
        !options.dry_run,
    ensures
        ({
            let after = apply_laws::after_event(apply, known, options, event);
            is_going(
                after.0,
                after.1,
                requests_after(apply, known, options, asked, event),
                card,
            )
        }),
{
    let key = state::key_of(card.note_id, card.fp);
    if !(apply.phase is Deleted) {
        lemma_other_card(apply, known, options, event, key);
    }
    match event {
        ApplyEvent::Step(listed) => {
            let action = apply::apply_step(apply, known, listed, options).action;
            lemma_asked(asked, action);
            match apply.phase {
                PhaseModel::Clearing => {
                    let pred = apply::is_stale(apply.scope, options);
                    let stale = listed.filter(pred);
                    assert(listed.contains(card));
                    let i = choose|i: int| 0 <= i < listed.len() && listed[i] == card;
                    listed.lemma_filter_contains(pred, i);
                    assert(stale.contains(card));
                    let y = choose|y: int| 0 <= y < stale.len() && stale[y] == card;
                    let numbers = stale.map_values(|c: KnownCard| c.anki_id);
                    assert(numbers[y] == card.anki_id);
                    assert(deletes_note(action, card.anki_id));
                },
                PhaseModel::Deleted(stale) => {
                    let y = choose|y: int| 0 <= y < stale.len() && stale[y] == card;
                    assert(state::key_of(stale[y].note_id, stale[y].fp) == key);
                    apply_laws::lemma_without(known, stale, key);
                },
                _ => {},
            }
        },
        _ => {},
    }
}

proof fn lemma_run_deletes(
    apply: ApplyModel,
    known: StateModel,
    options: OptionsModel,
    events: Seq<ApplyEvent>,
    card: KnownCard,
)
    requires
        apply::is_sound(apply),
        is_going(apply, known, Seq::empty(), card),
        apply_laws::looks_at(apply.scope, options, card.note_id),
        !scope::in_scope(apply.scope.cards, (card.note_id, card.fp)),
        !options.dry_run,
    ensures
        apply_laws::applied(apply, known, options, events) matches Some(after) ==> {
            &&& apply::is_sound(after.0)
            &&& after.0.scope == apply.scope
            &&& is_going(after.0, after.1, requests(apply, known, options, events), card)
        },
    decreases events.len(),
{
    if events.len() > 0 {
        let front = events.drop_last();
        lemma_run_deletes(apply, known, options, front, card);
        if let Some(before) = apply_laws::applied(apply, known, options, front) {
            if apply_laws::fits(before.0, before.1, events.last()) {
                let asked = requests(apply, known, options, front);
                apply_laws::lemma_stays_sound(before.0, before.1, options, events.last());
                lemma_going(before.0, before.1, options, asked, events.last(), card);
            }
        }
    }
}

/// A tracked card that its note no longer has is deleted: in a run that succeeds and looks at the
/// note, Anki is asked to delete the note of the card, and the card is no longer tracked. A card
/// whose front has changed is such a card, and a new one.
pub proof fn law_gone_cards_are_deleted(
    scope: ScopeModel,
    known: StateModel,
    options: OptionsModel,
    plan_events: Seq<PlanEvent>,
    plan: PlanModel,
    apply_events: Seq<ApplyEvent>,
    end: ApplyModel,
    recorded: StateModel,
    card: KnownCard,
)
    requires
        scope::identities_differ(scope.cards),
        scope.cards.len() <= usize::MAX,
        apply_laws::ids_are_plain(scope.cards),
        !options.dry_run,
        sync_laws::planned(sync::first_plan(scope), known, options, plan_events) == Some(plan),
        sync_laws::is_complete(plan),
        apply_laws::applied(apply::first_apply(plan), known, options, apply_events) == Some(
            (end, recorded),
        ),
        end.phase is Done,
        state::is_known(known, card),
        apply_laws::looks_at(scope, options, card.note_id),
        !scope::in_scope(scope.cards, (card.note_id, card.fp)),
    ensures
        asks_deletion(
            requests(apply::first_apply(plan), known, options, apply_events),
            card.anki_id,
        ),
        !recorded.cards.contains_key(state::key_of(card.note_id, card.fp)),
{
    let first = apply::first_apply(plan);
    sync_laws::lemma_planned(scope, known, options, plan_events);
    lemma_left_alone(plan, known, options, card);
    lemma_run_deletes(first, known, options, apply_events, card);
}

} // verus!
