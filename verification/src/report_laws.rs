//! What a run reports, and what a second run does.

use vstd::prelude::*;

use crate::apply;
use crate::apply::{ApplyActionModel, ApplyModel, PhaseModel};
use crate::apply_laws;
use crate::apply_laws::ApplyEvent;
use crate::card_laws;
use crate::lists;
use crate::scope;
use crate::scope::ScopeModel;
use crate::state;
use crate::state::{KnownCard, StateModel};
use crate::sync;
use crate::sync::{Decision, OptionsModel, PlanModel, SyncReport};
use crate::sync_laws;
use crate::sync_laws::PlanEvent;

verus! {

// ── Counts ───────────────────────────────────────────────────────────────────

/// How many of the first `count` cards of a plan are updated.
pub open spec fn updated_among(
    plan: PlanModel,
    known: StateModel,
    options: OptionsModel,
    count: int,
) -> nat
    decreases count,
{
    if count <= 0 {
        0
    } else {
        let front = updated_among(plan, known, options, count - 1);
        if sync_laws::decision_at(plan, known, options, count - 1) is Update {
            front + 1
        } else {
            front
        }
    }
}

/// How many of the first `count` cards of a plan are added.
pub open spec fn added_among(
    plan: PlanModel,
    known: StateModel,
    options: OptionsModel,
    count: int,
) -> nat
    decreases count,
{
    if count <= 0 {
        0
    } else {
        let front = added_among(plan, known, options, count - 1);
        if sync_laws::decision_at(plan, known, options, count - 1) is Add {
            front + 1
        } else {
            front
        }
    }
}

/// How many of the first `count` cards of a plan are skipped.
pub open spec fn skipped_among(
    plan: PlanModel,
    known: StateModel,
    options: OptionsModel,
    count: int,
) -> nat
    decreases count,
{
    if count <= 0 {
        0
    } else {
        let front = skipped_among(plan, known, options, count - 1);
        if sync_laws::decision_at(plan, known, options, count - 1) is Skip {
            front + 1
        } else {
            front
        }
    }
}

/// The counts stay when the plan learns of the images of more notes.
proof fn lemma_same_counts(
    plan: PlanModel,
    more: PlanModel,
    known: StateModel,
    options: OptionsModel,
    count: int,
)
    requires
        more.scope == plan.scope,
        forall|j: int|
            0 <= j < count ==> more.images[(#[trigger] plan.scope.cards[j]).note_id]
                == plan.images[plan.scope.cards[j].note_id],
    ensures
        updated_among(more, known, options, count) == updated_among(plan, known, options, count),
        added_among(more, known, options, count) == added_among(plan, known, options, count),
        skipped_among(more, known, options, count) == skipped_among(plan, known, options, count),
    decreases count,
{
    if count > 0 {
        lemma_same_counts(plan, more, known, options, count - 1);
        assert(more.images[plan.scope.cards[count - 1].note_id]
            == plan.images[plan.scope.cards[count - 1].note_id]);
    }
}

/// Each card that the plan has looked at is counted by what was decided on it.
pub open spec fn counts_decisions(
    plan: PlanModel,
    known: StateModel,
    options: OptionsModel,
) -> bool {
    &&& forall|j: int|
        0 <= j < plan.next ==> plan.images.contains_key((#[trigger] plan.scope.cards[j]).note_id)
    &&& plan.report.updated + plan.updates.len() == updated_among(plan, known, options, plan.next)
    &&& plan.report.added + plan.adds.len() == added_among(plan, known, options, plan.next)
    &&& plan.report.skipped == skipped_among(plan, known, options, plan.next)
    &&& plan.draft matches Some(draft) ==> match sync_laws::decision_at(
        plan,
        known,
        options,
        plan.next,
    ) {
        Decision::Skip => false,
        Decision::Update(_) => draft.anki_id is Some,
        Decision::Add => draft.anki_id is None,
    }
}

proof fn lemma_counts_decisions(
    plan: PlanModel,
    known: StateModel,
    options: OptionsModel,
    event: PlanEvent,
)
    requires
        sync::is_sound(plan),
        counts_decisions(plan, known, options),
        sync_laws::plan_event_fits(plan, event),
    ensures
        counts_decisions(
            sync_laws::after_plan_event(plan, known, options, event),
            known,
            options,
        ),
{
    let more = sync_laws::after_plan_event(plan, known, options, event);
    sync_laws::lemma_plan_stays_sound(plan, known, options, event);
    lemma_same_counts(plan, more, known, options, plan.next);
    if plan.next < plan.scope.cards.len() {
        if plan.images.contains_key(plan.scope.cards[plan.next].note_id) {
            assert(sync_laws::decision_at(more, known, options, plan.next)
                == sync_laws::decision_at(plan, known, options, plan.next));
        }
    }
}

proof fn lemma_plan_counts(
    scope: ScopeModel,
    known: StateModel,
    options: OptionsModel,
    events: Seq<PlanEvent>,
)
    requires
        scope::identities_differ(scope.cards),
        scope.cards.len() <= usize::MAX,
    ensures
        sync_laws::planned(sync::first_plan(scope), known, options, events) matches Some(plan) ==> {
            &&& sync::is_sound(plan)
            &&& plan.scope == scope
            &&& counts_decisions(plan, known, options)
        },
    decreases events.len(),
{
    if events.len() > 0 {
        let front = events.drop_last();
        lemma_plan_counts(scope, known, options, front);
        if let Some(before) = sync_laws::planned(
            sync::first_plan(scope),
            known,
            options,
            front,
        ) {
            if sync_laws::plan_event_fits(before, events.last()) {
                sync_laws::lemma_plan_stays_sound(before, known, options, events.last());
                lemma_counts_decisions(before, known, options, events.last());
            }
        }
    }
}

/// The updates and additions that are not counted yet will be.
proof fn lemma_apply_counts(
    apply: ApplyModel,
    known: StateModel,
    options: OptionsModel,
    events: Seq<ApplyEvent>,
)
    requires
        apply::is_sound(apply),
    ensures
        apply_laws::applied(apply, known, options, events) matches Some(after) ==> {
            &&& apply::is_sound(after.0)
            &&& after.0.report.updated + apply::updates_left(after.0) == apply.report.updated
                + apply::updates_left(apply)
            &&& after.0.report.added + apply::adds_left(after.0) == apply.report.added
                + apply::adds_left(apply)
            &&& after.0.report.skipped == apply.report.skipped
        },
    decreases events.len(),
{
    if events.len() > 0 {
        let front = events.drop_last();
        lemma_apply_counts(apply, known, options, front);
        if let Some(before) = apply_laws::applied(apply, known, options, front) {
            if apply_laws::fits(before.0, before.1, events.last()) {
                apply_laws::lemma_stays_sound(before.0, before.1, options, events.last());
            }
        }
    }
}

/// A run that is done reports how many cards were updated, added and skipped: those on which that
/// was decided. A dry run reports how many would be.
pub proof fn law_report_counts_the_decisions(
    scope: ScopeModel,
    known: StateModel,
    options: OptionsModel,
    plan_events: Seq<PlanEvent>,
    plan: PlanModel,
    apply_events: Seq<ApplyEvent>,
    end: ApplyModel,
    recorded: StateModel,
)
    requires
        scope::identities_differ(scope.cards),
        scope.cards.len() <= usize::MAX,
        sync_laws::planned(sync::first_plan(scope), known, options, plan_events) == Some(plan),
        sync_laws::is_complete(plan),
        apply_laws::applied(apply::first_apply(plan), known, options, apply_events) == Some(
            (end, recorded),
        ),
        end.phase is Done,
    ensures
        end.report.updated == updated_among(plan, known, options, scope.cards.len() as int),
        end.report.added == added_among(plan, known, options, scope.cards.len() as int),
        end.report.skipped == skipped_among(plan, known, options, scope.cards.len() as int),
{
    lemma_plan_counts(scope, known, options, plan_events);
    lemma_apply_counts(apply::first_apply(plan), known, options, apply_events);
}

/// The number is that of the tracked cards which are to be deleted.
pub open spec fn counts_stale(
    number: usize,
    known: StateModel,
    scope: ScopeModel,
    options: OptionsModel,
) -> bool {
    exists|listed: Seq<KnownCard>|
        state::lists_known(listed, known) && number == (#[trigger] listed.filter(
            apply::is_stale(scope, options),
        )).len()
}

/// The lists of tracked cards fit in memory.
pub open spec fn lists_fit(events: Seq<ApplyEvent>) -> bool {
    forall|n: int|
        0 <= n < events.len() ==> ((#[trigger] events[n]) matches ApplyEvent::Step(listed)
            ==> listed.len() <= usize::MAX)
}

proof fn lemma_dry_deletions(
    apply: ApplyModel,
    known: StateModel,
    options: OptionsModel,
    events: Seq<ApplyEvent>,
)
    requires
        apply_laws::is_dry(apply),
        apply.report.deleted == 0,
        !(apply.phase is Finishing || apply.phase is Done),
        options.dry_run,
        lists_fit(events),
    ensures
        apply_laws::applied(apply, known, options, events) matches Some(after) ==> {
            &&& apply_laws::is_dry(after.0)
            &&& after.1 == known
            &&& after.0.scope == apply.scope
            &&& if after.0.phase is Finishing || after.0.phase is Done {
                counts_stale(after.0.report.deleted, known, apply.scope, options)
            } else {
                after.0.report.deleted == 0
            }
        },
    decreases events.len(),
{
    if events.len() > 0 {
        let front = events.drop_last();
        assert(forall|n: int| 0 <= n < front.len() ==> #[trigger] front[n] == events[n]);
        lemma_dry_deletions(apply, known, options, front);
        if let Some(before) = apply_laws::applied(apply, known, options, front) {
            if apply_laws::fits(before.0, before.1, events.last()) {
                let event = events[events.len() - 1];
                if let ApplyEvent::Step(listed) = event {
                    apply_laws::lemma_dry_step(before.0, before.1, listed, options);
                    if before.0.phase is Clearing {
                        let pred = apply::is_stale(apply.scope, options);
                        listed.lemma_filter_len(pred);
                        assert(listed.filter(pred).len() <= usize::MAX);
                    }
                }
            }
        }
    }
}

/// A dry run that is done reports how many cards would be deleted: the tracked ones, in the notes
/// that it looks at, that are not cards of the run.
pub proof fn law_dry_run_counts_what_would_go(
    scope: ScopeModel,
    known: StateModel,
    options: OptionsModel,
    plan_events: Seq<PlanEvent>,
    plan: PlanModel,
    apply_events: Seq<ApplyEvent>,
    end: ApplyModel,
    recorded: StateModel,
)
    requires
        scope::identities_differ(scope.cards),
        scope.cards.len() <= usize::MAX,
        options.dry_run,
        sync_laws::planned(sync::first_plan(scope), known, options, plan_events) == Some(plan),
        sync_laws::is_complete(plan),
        lists_fit(apply_events),
        apply_laws::applied(apply::first_apply(plan), known, options, apply_events) == Some(
            (end, recorded),
        ),
        end.phase is Done,
    ensures
        counts_stale(end.report.deleted, known, scope, options),
{
    sync_laws::lemma_planned_sound(scope, known, options, plan_events);
    sync_laws::lemma_dry_plan(scope, known, options, plan_events);
    lemma_dry_deletions(apply::first_apply(plan), known, options, apply_events);
}

/// Two lists of tracked cards hold equally many of some kind, if the states that they list track
/// the same cards of that kind.
proof fn lemma_same_number(
    list: Seq<KnownCard>,
    other: Seq<KnownCard>,
    known: StateModel,
    recorded: StateModel,
    pred: spec_fn(KnownCard) -> bool,
)
    requires
        state::lists_known(list, known),
        state::lists_known(other, recorded),
        forall|card: KnownCard|
            pred(card) ==> (#[trigger] state::is_known(known, card) <==> state::is_known(
                recorded,
                card,
            )),
    ensures
        list.filter(pred).len() == other.filter(pred).len(),
{
    lemma_filtered(list, pred);
    lemma_filtered(other, pred);
    let some = list.filter(pred);
    let same = other.filter(pred);
    assert forall|card: KnownCard| #[trigger] some.to_set().contains(card) == same.to_set().contains(
        card,
    ) by {
        assert(some.contains(card) <==> list.contains(card) && pred(card));
        assert(same.contains(card) <==> other.contains(card) && pred(card));
    }
    assert(some.to_set() =~= same.to_set());
    some.unique_seq_to_set();
    same.unique_seq_to_set();
}

/// What a list without repetitions holds of some kind, each member once.
proof fn lemma_filtered(list: Seq<KnownCard>, pred: spec_fn(KnownCard) -> bool)
    requires
        list.no_duplicates(),
    ensures
        list.filter(pred).no_duplicates(),
        forall|card: KnownCard| #[trigger]
            list.filter(pred).contains(card) <==> list.contains(card) && pred(card),
    decreases list.len(),
{
    reveal(Seq::filter);
    if list.len() > 0 {
        let front = list.drop_last();
        lemma_filtered(front, pred);
        lists::lemma_push_contains(front, list.last());
        lists::lemma_push_contains(front.filter(pred), list.last());
        assert(list =~= front.push(list.last()));
        assert(!front.contains(list.last())) by {
            if front.contains(list.last()) {
                let i = choose|i: int| 0 <= i < front.len() && front[i] == list.last();
                assert(list[i] == list[list.len() - 1]);
            }
        }
    }
}

/// The tracked cards that are not cards of the run are those that were tracked before it, until
/// they are deleted; `number` of them are deleted in the notes that the run looks at.
pub open spec fn counts_deletions(
    apply: ApplyModel,
    before: StateModel,
    known: StateModel,
    number: nat,
) -> bool {
    match apply.phase {
        PhaseModel::Deleted(stale) => stale.len() == number,
        PhaseModel::Finishing | PhaseModel::Done => apply.report.deleted == number,
        _ => {
            &&& apply.report.deleted == 0
            &&& forall|card: KnownCard|
                !scope::in_scope(apply.scope.cards, (card.note_id, card.fp)) ==> (
                #[trigger] state::is_known(known, card) <==> state::is_known(before, card))
        },
    }
}

/// No change is one of a card that is not a card of the run.
pub open spec fn leaves_others_alone(apply: ApplyModel) -> bool {
    forall|card: KnownCard|
        !card.note_id.contains(':') && !scope::in_scope(
            apply.scope.cards,
            (card.note_id, card.fp),
        ) ==> card_laws::is_left_alone(
            apply,
            #[trigger] state::key_of(card.note_id, card.fp),
        )
}

/// Each event leaves the deletions counted.
proof fn lemma_counts_deletions(
    apply: ApplyModel,
    before: StateModel,
    first: Seq<KnownCard>,
    known: StateModel,
    options: OptionsModel,
    event: ApplyEvent,
)
    requires
        apply::is_sound(apply),
        apply_laws::fits(apply, known, event),
        state::lists_known(first, before),
        first.len() <= usize::MAX,
        leaves_others_alone(apply),
        counts_deletions(
            apply,
            before,
            known,
            first.filter(apply::is_stale(apply.scope, options)).len(),
        ),
        !options.dry_run,
    ensures
        ({
            let after = apply_laws::after_event(apply, known, options, event);
            counts_deletions(
                after.0,
                before,
                after.1,
                first.filter(apply::is_stale(apply.scope, options)).len(),
            )
        }),
{
    let (more, recorded) = apply_laws::after_event(apply, known, options, event);
    let pred = apply::is_stale(apply.scope, options);
    first.lemma_filter_len(pred);
    if !(apply.phase is Deleted || apply.phase is Finishing || apply.phase is Done) {
        assert forall|card: KnownCard|
            !scope::in_scope(apply.scope.cards, (card.note_id, card.fp)) implies (
        #[trigger] state::is_known(recorded, card) <==> state::is_known(before, card)) by {
            assert(state::is_known(known, card) <==> state::is_known(before, card));
            if !card.note_id.contains(':') {
                let key = state::key_of(card.note_id, card.fp);
                assert(card_laws::is_left_alone(apply, key));
                card_laws::lemma_other_card(apply, known, options, event, key);
            }
        }
        if apply.phase is Clearing {
            if let ApplyEvent::Step(listed) = event {
                lemma_same_number(first, listed, before, known, pred);
            }
        }
    }
}

/// The deletions of a run are counted throughout it.
proof fn lemma_run_deletions(
    apply: ApplyModel,
    before: StateModel,
    first: Seq<KnownCard>,
    options: OptionsModel,
    events: Seq<ApplyEvent>,
)
    requires
        apply::is_sound(apply),
        state::lists_known(first, before),
        first.len() <= usize::MAX,
        leaves_others_alone(apply),
        counts_deletions(
            apply,
            before,
            before,
            first.filter(apply::is_stale(apply.scope, options)).len(),
        ),
        !options.dry_run,
    ensures
        apply_laws::applied(apply, before, options, events) matches Some(after) ==> {
            &&& apply::is_sound(after.0)
            &&& after.0.scope == apply.scope
            &&& leaves_others_alone(after.0)
            &&& counts_deletions(
                after.0,
                before,
                after.1,
                first.filter(apply::is_stale(apply.scope, options)).len(),
            )
        },
    decreases events.len(),
{
    if events.len() > 0 {
        let front = events.drop_last();
        lemma_run_deletions(apply, before, first, options, front);
        if let Some(last) = apply_laws::applied(apply, before, options, front) {
            if apply_laws::fits(last.0, last.1, events.last()) {
                let more = apply_laws::after_event(last.0, last.1, options, events.last()).0;
                apply_laws::lemma_stays_sound(last.0, last.1, options, events.last());
                lemma_counts_deletions(last.0, before, first, last.1, options, events.last());
                assert forall|card: KnownCard|
                    !card.note_id.contains(':') && !scope::in_scope(
                        more.scope.cards,
                        (card.note_id, card.fp),
                    ) implies card_laws::is_left_alone(
                    more,
                    #[trigger] state::key_of(card.note_id, card.fp),
                ) by {
                    assert(card_laws::is_left_alone(
                        last.0,
                        state::key_of(card.note_id, card.fp),
                    ));
                }
            }
        }
    }
}

/// The first event of some events that can happen can happen first.
proof fn lemma_first_event(
    apply: ApplyModel,
    known: StateModel,
    options: OptionsModel,
    events: Seq<ApplyEvent>,
)
    requires
        events.len() > 0,
        apply_laws::applied(apply, known, options, events) is Some,
    ensures
        apply_laws::fits(apply, known, events[0]),
    decreases events.len(),
{
    let front = events.drop_last();
    if front.len() > 0 {
        lemma_first_event(apply, known, options, front);
        assert(front[0] == events[0]);
    } else {
        assert(apply_laws::applied(apply, known, options, front) == Some((apply, known)));
    }
}

/// A run that is done reports how many cards were deleted: those that were tracked before the
/// run, in the notes that it looks at, and are not cards of the run.
pub proof fn law_run_counts_what_goes(
    scope: ScopeModel,
    known: StateModel,
    options: OptionsModel,
    plan_events: Seq<PlanEvent>,
    plan: PlanModel,
    apply_events: Seq<ApplyEvent>,
    end: ApplyModel,
    recorded: StateModel,
)
    requires
        scope::identities_differ(scope.cards),
        scope.cards.len() <= usize::MAX,
        apply_laws::ids_are_plain(scope.cards),
        !options.dry_run,
        sync_laws::planned(sync::first_plan(scope), known, options, plan_events) == Some(plan),
        sync_laws::is_complete(plan),
        lists_fit(apply_events),
        apply_laws::applied(apply::first_apply(plan), known, options, apply_events) == Some(
            (end, recorded),
        ),
        end.phase is Done,
    ensures
        counts_stale(end.report.deleted, known, scope, options),
{
    let start = apply::first_apply(plan);
    sync_laws::lemma_planned(scope, known, options, plan_events);
    lemma_first_event(start, known, options, apply_events);
    let first = apply_events[0]->Step_0;
    assert(apply_events[0] == ApplyEvent::Step(first));
    assert forall|card: KnownCard|
        !card.note_id.contains(':') && !scope::in_scope(
            start.scope.cards,
            (card.note_id, card.fp),
        ) implies card_laws::is_left_alone(
        start,
        #[trigger] state::key_of(card.note_id, card.fp),
    ) by {
        card_laws::lemma_left_alone(plan, known, options, card);
    }
    lemma_run_deletions(start, known, first, options, apply_events);
    assert(state::lists_known(first, known));
    assert(end.report.deleted == first.filter(apply::is_stale(scope, options)).len());
}

// ── A second run ─────────────────────────────────────────────────────────────

/// The images of each note are those that an earlier plan had.
pub open spec fn same_images(events: Seq<PlanEvent>, last: PlanModel) -> bool {
    forall|n: int|
        0 <= n < events.len() ==> ((#[trigger] events[n]) matches PlanEvent::Images(
            note_id,
            images,
        ) ==> last.images.contains_key(note_id) ==> images == last.images[note_id])
}

/// The plan has skipped all cards so far.
pub open spec fn is_idle(plan: PlanModel) -> bool {
    &&& plan.draft is None
    &&& plan.updates.len() == 0
    &&& plan.adds.len() == 0
    &&& plan.uploaded == Map::<Seq<char>, Seq<char>>::empty()
    &&& plan.report == SyncReport {
        added: 0,
        updated: 0,
        deleted: 0,
        skipped: plan.next as usize,
    }
}

/// All cards of a plan are in Anki with their digests, and their images are known.
pub open spec fn all_settled(last: PlanModel, recorded: StateModel, options: OptionsModel) -> bool {
    forall|j: int|
        0 <= j < last.scope.cards.len() ==> last.images.contains_key(
            (#[trigger] last.scope.cards[j]).note_id,
        ) && sync_laws::is_settled(
            recorded,
            last.scope.cards[j],
            sync_laws::hash_at(last, j, options.config),
        )
}

proof fn lemma_second_plan(
    last: PlanModel,
    recorded: StateModel,
    options: OptionsModel,
    events: Seq<PlanEvent>,
)
    requires
        scope::identities_differ(last.scope.cards),
        last.scope.cards.len() <= usize::MAX,
        all_settled(last, recorded, options),
        same_images(events, last),
        !options.force,
    ensures
        sync_laws::planned(sync::first_plan(last.scope), recorded, options, events) matches Some(
            plan,
        ) ==> {
            &&& sync::is_sound(plan)
            &&& plan.scope == last.scope
            &&& is_idle(plan)
            &&& forall|note_id: Seq<char>| #[trigger]
                plan.images.contains_key(note_id) && last.images.contains_key(note_id)
                    ==> plan.images[note_id] == last.images[note_id]
            &&& sync_laws::uploads(
                sync::first_plan(last.scope),
                recorded,
                options,
                events,
            ).len() == 0
        },
    decreases events.len(),
{
    if events.len() > 0 {
        let front = events.drop_last();
        assert(forall|n: int| 0 <= n < front.len() ==> #[trigger] front[n] == events[n]);
        lemma_second_plan(last, recorded, options, front);
        if let Some(before) = sync_laws::planned(
            sync::first_plan(last.scope),
            recorded,
            options,
            front,
        ) {
            let event = events[events.len() - 1];
            if sync_laws::plan_event_fits(before, event) {
                sync_laws::lemma_plan_stays_sound(before, recorded, options, event);
                if before.next < before.scope.cards.len() {
                    let card = last.scope.cards[before.next];
                    assert(last.images.contains_key(card.note_id));
                    if before.images.contains_key(card.note_id) {
                        assert(sync_laws::hash_at(before, before.next, options.config)
                            == sync_laws::hash_at(last, before.next, options.config));
                        assert(sync::next_decision(before, recorded, options) is Skip);
                    }
                }
            }
        }
    }
}

/// The request changes nothing in Anki.
pub open spec fn changes_nothing(action: ApplyActionModel) -> bool {
    action is Continue || action is Save || action is Done
}

proof fn lemma_second_apply(
    apply: ApplyModel,
    recorded: StateModel,
    options: OptionsModel,
    events: Seq<ApplyEvent>,
)
    requires
        apply_laws::is_dry(apply),
        apply_laws::only_current(recorded, apply.scope, options),
    ensures
        apply_laws::applied(apply, recorded, options, events) matches Some(after) ==> {
            &&& apply_laws::is_dry(after.0)
            &&& after.0.scope == apply.scope
            &&& after.0.report == apply.report
            &&& after.1 == recorded
            &&& forall|n: int|
                0 <= n < card_laws::requests(apply, recorded, options, events).len()
                    ==> changes_nothing(
                    #[trigger] card_laws::requests(apply, recorded, options, events)[n],
                )
        },
    decreases events.len(),
{
    if events.len() > 0 {
        let front = events.drop_last();
        lemma_second_apply(apply, recorded, options, front);
        if let Some(before) = apply_laws::applied(apply, recorded, options, front) {
            if apply_laws::fits(before.0, before.1, events.last()) {
                apply_laws::lemma_stays_sound(before.0, before.1, options, events.last());
                let asked = card_laws::requests(apply, recorded, options, front);
                let more = card_laws::requests(apply, recorded, options, events);
                if let ApplyEvent::Step(listed) = events.last() {
                    let pred = apply::is_stale(apply.scope, options);
                    let stale = listed.filter(pred);
                    if stale.len() > 0 {
                        assert(stale.contains(stale[0]));
                        listed.lemma_filter_contains_rev(pred, stale[0]);
                        listed.lemma_filter_pred(pred, 0);
                        assert(state::is_known(recorded, stale[0]));
                        assert(false);
                    }
                    let action = apply::apply_step(before.0, before.1, listed, options).action;
                    assert(changes_nothing(action));
                    assert(more == asked.push(action));
                }
                assert forall|n: int| 0 <= n < more.len() implies changes_nothing(
                    #[trigger] more[n],
                ) by {
                    if n < asked.len() {
                        assert(more[n] == asked[n]);
                    }
                }
            }
        }
    }
}

/// A second run over the same notes, with the same filters and settings, changes nothing unless
/// it is forced: all cards are skipped, no image is uploaded, nothing is asked of Anki, and what
/// is recorded stays as it is.
pub proof fn law_second_run_changes_nothing(
    scope: ScopeModel,
    known: StateModel,
    options: OptionsModel,
    plan_events: Seq<PlanEvent>,
    plan: PlanModel,
    apply_events: Seq<ApplyEvent>,
    end: ApplyModel,
    recorded: StateModel,
    again: OptionsModel,
    again_plan_events: Seq<PlanEvent>,
    again_plan: PlanModel,
    again_apply_events: Seq<ApplyEvent>,
    again_end: ApplyModel,
    again_recorded: StateModel,
)
    requires
        scope::identities_differ(scope.cards),
        scope.cards.len() <= usize::MAX,
        apply_laws::ids_are_plain(scope.cards),
        !options.dry_run,
        sync_laws::planned(sync::first_plan(scope), known, options, plan_events) == Some(plan),
        sync_laws::is_complete(plan),
        apply_laws::applied(apply::first_apply(plan), known, options, apply_events) == Some(
            (end, recorded),
        ),
        end.phase is Done,
        again.tag_filter == options.tag_filter,
        again.note_filter == options.note_filter,
        again.config == options.config,
        !again.force,
        same_images(again_plan_events, plan),
        sync_laws::planned(sync::first_plan(scope), recorded, again, again_plan_events) == Some(
            again_plan,
        ),
        sync_laws::is_complete(again_plan),
        apply_laws::applied(
            apply::first_apply(again_plan),
            recorded,
            again,
            again_apply_events,
        ) == Some((again_end, again_recorded)),
    ensures
        again_plan.updates.len() == 0,
        again_plan.adds.len() == 0,
        sync_laws::uploads(sync::first_plan(scope), recorded, again, again_plan_events).len() == 0,
        again_end.report.added == 0,
        again_end.report.updated == 0,
        again_end.report.deleted == 0,
        again_end.report.skipped == scope.cards.len(),
        again_recorded == recorded,
        forall|n: int|
            0 <= n < card_laws::requests(
                apply::first_apply(again_plan),
                recorded,
                again,
                again_apply_events,
            ).len() ==> changes_nothing(
                #[trigger] card_laws::requests(
                    apply::first_apply(again_plan),
                    recorded,
                    again,
                    again_apply_events,
                )[n],
            ),
{
    sync_laws::lemma_planned(scope, known, options, plan_events);
    apply_laws::law_finished_run_mirrors_the_notes(
        scope,
        known,
        options,
        plan_events,
        plan,
        apply_events,
        end,
        recorded,
    );
    assert forall|j: int| 0 <= j < plan.scope.cards.len() implies plan.images.contains_key(
        (#[trigger] plan.scope.cards[j]).note_id,
    ) && sync_laws::is_settled(
        recorded,
        plan.scope.cards[j],
        sync_laws::hash_at(plan, j, again.config),
    ) by {
        assert(sync_laws::is_covered(plan, known, options.config, j));
        assert(sync_laws::is_settled(
            recorded,
            scope.cards[j],
            sync_laws::hash_at(plan, j, options.config),
        ));
    }
    lemma_second_plan(plan, recorded, again, again_plan_events);
    assert forall|card: KnownCard| #[trigger]
        state::is_known(recorded, card) && apply_laws::looks_at(
            scope,
            again,
            card.note_id,
        ) implies scope::in_scope(scope.cards, (card.note_id, card.fp)) by {
        assert(apply_laws::looks_at(scope, options, card.note_id));
    }
    lemma_second_apply(apply::first_apply(again_plan), recorded, again, again_apply_events);
}

} // verus!
