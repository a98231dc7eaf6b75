//! What holds of every run.

use vstd::prelude::*;

use crate::anki::NoteModel;
use crate::apply;
use crate::card_note;
use crate::config::ConfigModel;
use crate::lists;
use crate::parser::CardModel;
use crate::render;
use crate::render::ImageModel;
use crate::render_laws;
use crate::scope;
use crate::scope::{ScopeModel, ScopedModel};
use crate::state::StateModel;
use crate::sync;
use crate::sync::{
    AddModel, Decision, DraftModel, OptionsModel, PlanActionModel, PlanModel, UpdateModel,
};

verus! {

// ── Planning ─────────────────────────────────────────────────────────────────

/// Something that happens to a plan.
pub enum PlanEvent {
    /// It goes one step on.
    Step,
    /// It gets the images of a note.
    Images(Seq<char>, Seq<ImageModel>),
    /// The image that it waits for is uploaded, or not.
    Uploaded,
    Failed,
}

/// The event can happen to the plan.
pub open spec fn plan_event_fits(plan: PlanModel, event: PlanEvent) -> bool {
    match event {
        PlanEvent::Uploaded | PlanEvent::Failed => sync::awaits_upload(plan),
        _ => true,
    }
}

/// The plan after an event.
pub open spec fn after_plan_event(
    plan: PlanModel,
    known: StateModel,
    options: OptionsModel,
    event: PlanEvent,
) -> PlanModel {
    match event {
        PlanEvent::Step => sync::after_step(plan, known, options),
        PlanEvent::Images(note_id, images) => PlanModel {
            images: if plan.images.contains_key(note_id) {
                plan.images
            } else {
                plan.images.insert(note_id, images)
            },
            ..plan
        },
        PlanEvent::Uploaded => sync::with_upload(plan),
        PlanEvent::Failed => sync::without_upload(plan),
    }
}

/// The plan after some events, if each of them can happen.
pub open spec fn planned(
    plan: PlanModel,
    known: StateModel,
    options: OptionsModel,
    events: Seq<PlanEvent>,
) -> Option<PlanModel>
    decreases events.len(),
{
    if events.len() == 0 {
        Some(plan)
    } else {
        match planned(plan, known, options, events.drop_last()) {
            Some(before) => if plan_event_fits(before, events.last()) {
                Some(after_plan_event(before, known, options, events.last()))
            } else {
                None
            },
            None => None,
        }
    }
}

/// The plan has looked at all cards.
pub open spec fn is_complete(plan: PlanModel) -> bool {
    plan.draft is None && plan.next == plan.scope.cards.len()
}

/// The digest of a card of a plan.
pub open spec fn hash_at(plan: PlanModel, j: int, config: ConfigModel) -> Seq<char> {
    sync::hash_in(
        plan.scope,
        plan.scope.cards[j],
        plan.images[plan.scope.cards[j].note_id],
        config,
    )
}

/// The pending card is that card with that digest.
pub open spec fn stands_for(pending: AddModel, card: ScopedModel, hash: Seq<char>) -> bool {
    pending.note_id == card.note_id && pending.fp == card.card.fingerprint && pending.hash == hash
}

/// The card is in Anki, with that digest.
pub open spec fn is_settled(known: StateModel, card: ScopedModel, hash: Seq<char>) -> bool {
    let key = sync::scoped_key(card);
    known.cards.contains_key(key) && known.hashes.contains_key(key) && known.hashes[key] == hash
}

/// One of the updates is one of the card.
pub open spec fn is_in_updates(
    updates: Seq<UpdateModel>,
    card: ScopedModel,
    hash: Seq<char>,
) -> bool {
    exists|x: int| 0 <= x < updates.len() && stands_for((#[trigger] updates[x]).card, card, hash)
}

/// One of the additions is one of the card.
pub open spec fn is_in_adds(adds: Seq<AddModel>, card: ScopedModel, hash: Seq<char>) -> bool {
    exists|x: int| 0 <= x < adds.len() && stands_for(#[trigger] adds[x], card, hash)
}

/// The plan has seen to a card.
pub open spec fn is_covered(
    plan: PlanModel,
    known: StateModel,
    config: ConfigModel,
    j: int,
) -> bool {
    let card = plan.scope.cards[j];
    let hash = hash_at(plan, j, config);
    &&& plan.images.contains_key(card.note_id)
    &&& is_settled(known, card, hash) || is_in_updates(plan.updates, card, hash) || is_in_adds(
        plan.adds,
        card,
        hash,
    )
}

/// The pending card is one that the plan has looked at.
pub open spec fn comes_from(plan: PlanModel, config: ConfigModel, pending: AddModel) -> bool {
    exists|j: int|
        0 <= j < plan.next && stands_for(
            pending,
            #[trigger] plan.scope.cards[j],
            hash_at(plan, j, config),
        ) && plan.images.contains_key(plan.scope.cards[j].note_id)
}

/// The plan has seen to every card that it has looked at, and to no others.
pub open spec fn is_faithful(plan: PlanModel, known: StateModel, config: ConfigModel) -> bool {
    &&& forall|j: int|
        0 <= j < plan.next ==> #[trigger] is_covered(plan, known, config, j)
    &&& forall|x: int|
        0 <= x < plan.updates.len() ==> comes_from(
            plan,
            config,
            (#[trigger] plan.updates[x]).card,
        ) && known.cards.contains_key(apply::pending_key(plan.updates[x].card))
    &&& forall|x: int|
        0 <= x < plan.adds.len() ==> comes_from(plan, config, #[trigger] plan.adds[x])
    &&& plan.draft matches Some(draft) ==> {
        &&& draft.hash == hash_at(plan, plan.next, config)
        &&& draft.anki_id is Some ==> known.cards.contains_key(
            sync::scoped_key(plan.scope.cards[plan.next]),
        )
    }
}

/// A plan stays sound.
pub proof fn lemma_plan_stays_sound(
    plan: PlanModel,
    known: StateModel,
    options: OptionsModel,
    event: PlanEvent,
)
    requires
        sync::is_sound(plan),
        plan_event_fits(plan, event),
    ensures
        sync::is_sound(after_plan_event(plan, known, options, event)),
        after_plan_event(plan, known, options, event).scope == plan.scope,
{
    if let Some(draft) = plan.draft {
        lemma_placed(draft.pass, plan.images[plan.scope.cards[plan.next].note_id], plan.uploaded);
    }
}

/// A plan that some events have led to is sound.
pub proof fn lemma_planned_sound(
    scope: ScopeModel,
    known: StateModel,
    options: OptionsModel,
    events: Seq<PlanEvent>,
)
    requires
        scope::identities_differ(scope.cards),
        scope.cards.len() <= usize::MAX,
    ensures
        planned(sync::first_plan(scope), known, options, events) matches Some(plan)
            ==> sync::is_sound(plan) && plan.scope == scope,
    decreases events.len(),
{
    if events.len() > 0 {
        let front = events.drop_last();
        lemma_planned_sound(scope, known, options, front);
        if let Some(before) = planned(sync::first_plan(scope), known, options, front) {
            if plan_event_fits(before, events.last()) {
                lemma_plan_stays_sound(before, known, options, events.last());
            }
        }
    }
}

/// The images are put in place in their order.
pub proof fn lemma_placed(
    pass: render::PassModel,
    images: Seq<ImageModel>,
    uploaded: Map<Seq<char>, Seq<char>>,
)
    requires
        0 <= pass.next <= images.len(),
    ensures
        pass.next <= render::placed(pass, images, uploaded).next <= images.len(),
        ({
            let after = render::placed(pass, images, uploaded);
            after.next < images.len() ==> render::awaits_upload(after, images)
                && !uploaded.contains_key(images[after.next].upload_key)
        }),
    decreases images.len() - pass.next,
{
    if pass.next < images.len() {
        let image = images[pass.next];
        match render::reference_to(pass.text, image.filename) {
            None => {
                lemma_placed(
                    render::PassModel { next: pass.next + 1, ..pass },
                    images,
                    uploaded,
                );
            },
            Some(close) => {
                if uploaded.contains_key(image.upload_key) {
                    lemma_placed(
                        render::with_image(pass, close, uploaded[image.upload_key]),
                        images,
                        uploaded,
                    );
                }
            },
        }
    }
}

/// What a plan has seen to stays seen to when it learns the images of more notes.
proof fn lemma_more_images(
    plan: PlanModel,
    known: StateModel,
    config: ConfigModel,
    note_id: Seq<char>,
    images: Seq<ImageModel>,
)
    requires
        sync::is_sound(plan),
        is_faithful(plan, known, config),
        !plan.images.contains_key(note_id),
    ensures
        is_faithful(
            (PlanModel { images: plan.images.insert(note_id, images), ..plan }),
            known,
            config,
        ),
{
    let more = PlanModel { images: plan.images.insert(note_id, images), ..plan };
    assert forall|j: int| 0 <= j < more.next implies #[trigger] is_covered(
        more,
        known,
        config,
        j,
    ) by {
        assert(is_covered(plan, known, config, j));
        assert(hash_at(more, j, config) == hash_at(plan, j, config));
    }
    assert forall|pending: AddModel| #[trigger]
        comes_from(plan, config, pending) implies comes_from(more, config, pending) by {
        let j = choose|j: int|
            0 <= j < plan.next && stands_for(
                pending,
                #[trigger] plan.scope.cards[j],
                hash_at(plan, j, config),
            ) && plan.images.contains_key(plan.scope.cards[j].note_id);
        assert(stands_for(pending, more.scope.cards[j], hash_at(more, j, config)));
    }
    assert forall|x: int| 0 <= x < more.updates.len() implies comes_from(
        more,
        config,
        (#[trigger] more.updates[x]).card,
    ) && known.cards.contains_key(apply::pending_key(more.updates[x].card)) by {
        assert(comes_from(plan, config, plan.updates[x].card));
    }
    assert forall|x: int| 0 <= x < more.adds.len() implies comes_from(
        more,
        config,
        #[trigger] more.adds[x],
    ) by {
        assert(comes_from(plan, config, plan.adds[x]));
    }
}

/// What a plan has seen to stays seen to when it goes on to the next card with `updates` and
/// `adds` pending.
proof fn lemma_next_card(plan: PlanModel, more: PlanModel, known: StateModel, config: ConfigModel)
    requires
        sync::is_sound(plan),
        is_faithful(plan, known, config),
        plan.next < plan.scope.cards.len(),
        plan.images.contains_key(plan.scope.cards[plan.next].note_id),
        more.scope == plan.scope,
        more.images == plan.images,
        more.next == plan.next + 1,
        more.draft is None,
        is_covered(more, known, config, plan.next),
        more.updates == plan.updates || {
            &&& more.updates == plan.updates.push(more.updates.last())
            &&& stands_for(
                more.updates.last().card,
                plan.scope.cards[plan.next],
                hash_at(plan, plan.next, config),
            )
            &&& known.cards.contains_key(apply::pending_key(more.updates.last().card))
        },
        more.adds == plan.adds || {
            &&& more.adds == plan.adds.push(more.adds.last())
            &&& stands_for(
                more.adds.last(),
                plan.scope.cards[plan.next],
                hash_at(plan, plan.next, config),
            )
        },
    ensures
        is_faithful(more, known, config),
{
    assert forall|j: int| 0 <= j < more.next implies #[trigger] is_covered(
        more,
        known,
        config,
        j,
    ) by {
        if j < plan.next {
            assert(is_covered(plan, known, config, j));
            let card = plan.scope.cards[j];
            let hash = hash_at(plan, j, config);
            assert(hash_at(more, j, config) == hash);
            if is_in_updates(plan.updates, card, hash) {
                let x = choose|x: int|
                    0 <= x < plan.updates.len() && stands_for(
                        (#[trigger] plan.updates[x]).card,
                        card,
                        hash,
                    );
                assert(stands_for(more.updates[x].card, card, hash));
            } else if is_in_adds(plan.adds, card, hash) {
                let x = choose|x: int|
                    0 <= x < plan.adds.len() && stands_for(#[trigger] plan.adds[x], card, hash);
                assert(stands_for(more.adds[x], card, hash));
            }
        }
    }
    assert forall|pending: AddModel| #[trigger]
        comes_from(plan, config, pending) implies comes_from(more, config, pending) by {
        let j = choose|j: int|
            0 <= j < plan.next && stands_for(
                pending,
                #[trigger] plan.scope.cards[j],
                hash_at(plan, j, config),
            ) && plan.images.contains_key(plan.scope.cards[j].note_id);
        assert(stands_for(pending, more.scope.cards[j], hash_at(more, j, config)));
    }
    assert forall|x: int| 0 <= x < more.updates.len() implies comes_from(
        more,
        config,
        (#[trigger] more.updates[x]).card,
    ) && known.cards.contains_key(apply::pending_key(more.updates[x].card)) by {
        if x < plan.updates.len() {
            assert(more.updates[x] == plan.updates[x]);
            assert(comes_from(plan, config, plan.updates[x].card));
        } else {
            assert(stands_for(
                more.updates[x].card,
                more.scope.cards[plan.next],
                hash_at(more, plan.next, config),
            ));
        }
    }
    assert forall|x: int| 0 <= x < more.adds.len() implies comes_from(
        more,
        config,
        #[trigger] more.adds[x],
    ) by {
        if x < plan.adds.len() {
            assert(more.adds[x] == plan.adds[x]);
            assert(comes_from(plan, config, plan.adds[x]));
        } else {
            assert(stands_for(
                more.adds[x],
                more.scope.cards[plan.next],
                hash_at(more, plan.next, config),
            ));
        }
    }
}

/// A change of the draft alone, to one of the same card, leaves what the plan has seen to.
proof fn lemma_same_cards(plan: PlanModel, more: PlanModel, known: StateModel, config: ConfigModel)
    requires
        is_faithful(plan, known, config),
        more.scope == plan.scope,
        more.images == plan.images,
        more.next == plan.next,
        more.updates == plan.updates,
        more.adds == plan.adds,
        more.draft matches Some(draft) ==> {
            &&& draft.hash == hash_at(plan, plan.next, config)
            &&& draft.anki_id is Some ==> known.cards.contains_key(
                sync::scoped_key(plan.scope.cards[plan.next]),
            )
        },
    ensures
        is_faithful(more, known, config),
{
    assert forall|j: int| 0 <= j < more.next implies #[trigger] is_covered(
        more,
        known,
        config,
        j,
    ) by {
        assert(is_covered(plan, known, config, j));
        assert(hash_at(more, j, config) == hash_at(plan, j, config));
    }
    assert forall|pending: AddModel| #[trigger]
        comes_from(plan, config, pending) implies comes_from(more, config, pending) by {
        let j = choose|j: int|
            0 <= j < plan.next && stands_for(
                pending,
                #[trigger] plan.scope.cards[j],
                hash_at(plan, j, config),
            ) && plan.images.contains_key(plan.scope.cards[j].note_id);
        assert(stands_for(pending, more.scope.cards[j], hash_at(more, j, config)));
    }
    assert forall|x: int| 0 <= x < more.updates.len() implies comes_from(
        more,
        config,
        (#[trigger] more.updates[x]).card,
    ) && known.cards.contains_key(apply::pending_key(more.updates[x].card)) by {
        assert(comes_from(plan, config, plan.updates[x].card));
    }
    assert forall|x: int| 0 <= x < more.adds.len() implies comes_from(
        more,
        config,
        #[trigger] more.adds[x],
    ) by {
        assert(comes_from(plan, config, plan.adds[x]));
    }
}

/// Each event leaves a plan that has seen to every card it has looked at.
pub proof fn law_plan_sees_to_every_card(
    plan: PlanModel,
    known: StateModel,
    options: OptionsModel,
    event: PlanEvent,
)
    requires
        sync::is_sound(plan),
        is_faithful(plan, known, options.config),
        plan_event_fits(plan, event),
        !options.dry_run,
    ensures
        is_faithful(after_plan_event(plan, known, options, event), known, options.config),
{
    let config = options.config;
    let more = after_plan_event(plan, known, options, event);
    lemma_plan_stays_sound(plan, known, options, event);
    match event {
        PlanEvent::Images(note_id, images) => {
            if !plan.images.contains_key(note_id) {
                lemma_more_images(plan, known, config, note_id, images);
            }
        },
        PlanEvent::Uploaded | PlanEvent::Failed => {
            lemma_same_cards(plan, more, known, config);
        },
        PlanEvent::Step => {
            match plan.draft {
                Some(draft) => {
                    lemma_placed(
                        draft.pass,
                        plan.images[plan.scope.cards[plan.next].note_id],
                        plan.uploaded,
                    );
                    if more.draft is Some {
                        lemma_same_cards(plan, more, known, config);
                    } else {
                        let card = plan.scope.cards[plan.next];
                        let hash = hash_at(plan, plan.next, config);
                        assert(hash_at(more, plan.next, config) == hash);
                        if draft.anki_id is Some {
                            let last = more.updates.last();
                            assert(more.updates == plan.updates.push(last));
                            assert(more.updates[plan.updates.len() as int] == last);
                            assert(is_in_updates(more.updates, card, hash));
                        } else {
                            let last = more.adds.last();
                            assert(more.adds == plan.adds.push(last));
                            assert(more.adds[plan.adds.len() as int] == last);
                            assert(is_in_adds(more.adds, card, hash));
                        }
                        assert(is_covered(more, known, config, plan.next));
                        lemma_next_card(plan, more, known, config);
                    }
                },
                None => {
                    if more.next == plan.next + 1 {
                        assert(hash_at(more, plan.next, config) == hash_at(
                            plan,
                            plan.next,
                            config,
                        ));
                        assert(is_covered(more, known, config, plan.next));
                        lemma_next_card(plan, more, known, config);
                    } else {
                        lemma_same_cards(plan, more, known, config);
                    }
                },
            }
        },
    }
}

/// A plan that some events have led to is sound and has seen to every card it has looked at.
pub proof fn lemma_planned(
    scope: ScopeModel,
    known: StateModel,
    options: OptionsModel,
    events: Seq<PlanEvent>,
)
    requires
        scope::identities_differ(scope.cards),
        scope.cards.len() <= usize::MAX,
        !options.dry_run,
    ensures
        planned(sync::first_plan(scope), known, options, events) matches Some(plan) ==> {
            &&& sync::is_sound(plan)
            &&& is_faithful(plan, known, options.config)
            &&& plan.scope == scope
        },
    decreases events.len(),
{
    if events.len() > 0 {
        lemma_planned(scope, known, options, events.drop_last());
        if let Some(before) = planned(
            sync::first_plan(scope),
            known,
            options,
            events.drop_last(),
        ) {
            if plan_event_fits(before, events.last()) {
                lemma_plan_stays_sound(before, known, options, events.last());
                law_plan_sees_to_every_card(before, known, options, events.last());
            }
        }
    }
}

/// The attachments that are uploaded in the course of some events.
pub open spec fn uploads(
    plan: PlanModel,
    known: StateModel,
    options: OptionsModel,
    events: Seq<PlanEvent>,
) -> Seq<Seq<char>>
    decreases events.len(),
{
    if events.len() == 0 {
        Seq::empty()
    } else {
        let front = uploads(plan, known, options, events.drop_last());
        match planned(plan, known, options, events.drop_last()) {
            Some(before) => if events.last() is Uploaded {
                front.push(sync::awaited_image(before).upload_key)
            } else {
                front
            },
            None => front,
        }
    }
}

/// No attachment is uploaded twice in a run, in however many cards it is shown; and what a step
/// asks to be uploaded is what the plan then waits for.
pub proof fn law_images_are_uploaded_once(
    scope: ScopeModel,
    known: StateModel,
    options: OptionsModel,
    events: Seq<PlanEvent>,
    plan: PlanModel,
)
    requires
        scope::identities_differ(scope.cards),
        scope.cards.len() <= usize::MAX,
        planned(sync::first_plan(scope), known, options, events) == Some(plan),
    ensures
        uploads(sync::first_plan(scope), known, options, events).no_duplicates(),
        sync::step_action(plan, known, options) matches PlanActionModel::Upload(image) ==> {
            &&& sync::awaits_upload(sync::after_step(plan, known, options))
            &&& sync::awaited_image(sync::after_step(plan, known, options)) == image
        },
{
    lemma_uploads(scope, known, options, events);
    if let Some(draft) = plan.draft {
        lemma_placed(draft.pass, plan.images[plan.scope.cards[plan.next].note_id], plan.uploaded);
    }
}

/// What has been uploaded counts as uploaded.
proof fn lemma_uploads(
    scope: ScopeModel,
    known: StateModel,
    options: OptionsModel,
    events: Seq<PlanEvent>,
)
    requires
        scope::identities_differ(scope.cards),
        scope.cards.len() <= usize::MAX,
    ensures
        planned(sync::first_plan(scope), known, options, events) matches Some(plan) ==> {
            let keys = uploads(sync::first_plan(scope), known, options, events);
            &&& sync::is_sound(plan)
            &&& keys.no_duplicates()
            &&& forall|key: Seq<char>| #[trigger]
                keys.contains(key) ==> plan.uploaded.contains_key(key)
        },
    decreases events.len(),
{
    let first = sync::first_plan(scope);
    if events.len() > 0 {
        let front = events.drop_last();
        lemma_uploads(scope, known, options, front);
        if let Some(before) = planned(first, known, options, front) {
            if plan_event_fits(before, events.last()) {
                lemma_plan_stays_sound(before, known, options, events.last());
                let key = sync::awaited_image(before).upload_key;
                lists::lemma_push_contains(uploads(first, known, options, front), key);
            }
        }
    }
}

/// What is done with a card of a plan.
pub open spec fn decision_at(
    plan: PlanModel,
    known: StateModel,
    options: OptionsModel,
    j: int,
) -> Decision {
    sync::decision_on(
        known,
        sync::scoped_key(plan.scope.cards[j]),
        hash_at(plan, j, options.config),
        options.force,
    )
}

/// The first texts of the card are rendered, in their order.
pub open spec fn are_rendered(
    html: Seq<Seq<char>>,
    card: CardModel,
    images: Seq<ImageModel>,
    uploaded: Map<Seq<char>, Seq<char>>,
) -> bool {
    forall|k: int|
        0 <= k < html.len() ==> render_laws::is_html_of(
            #[trigger] html[k],
            card_note::texts_of(card)[k],
            images,
            uploaded,
        )
}

/// The note is made from the card: it has its deck and its tags, and its fields hold the texts of
/// the card as HTML, with the images in place that have been uploaded.
pub open spec fn is_made_from(
    note: NoteModel,
    scope: ScopeModel,
    card: ScopedModel,
    images: Seq<ImageModel>,
    uploaded: Map<Seq<char>, Seq<char>>,
    config: ConfigModel,
) -> bool {
    exists|html: Seq<Seq<char>>|
        {
            &&& html.len() == card_note::texts_of(card.card).len()
            &&& are_rendered(html, card.card, images, uploaded)
            &&& note == #[trigger] card_note::note_of(
                card.card,
                html,
                sync::tags_in(scope, card, config),
                config,
            )
        }
}

/// The draft is one of the card: the texts before the one that it is at are rendered, and the
/// images before the next one are in place in that.
#[verifier::opaque]
pub open spec fn is_draft_of(
    draft: DraftModel,
    card: CardModel,
    images: Seq<ImageModel>,
    uploaded: Map<Seq<char>, Seq<char>>,
) -> bool {
    &&& are_rendered(draft.html, card, images, uploaded)
    &&& render_laws::is_pass_over(
        draft.pass,
        card_note::texts_of(card)[draft.html.len() as int],
        images,
        uploaded,
    )
}

/// What is rendered stays so when more is uploaded.
proof fn lemma_rendered_grows(
    html: Seq<Seq<char>>,
    card: CardModel,
    images: Seq<ImageModel>,
    uploaded: Map<Seq<char>, Seq<char>>,
    more: Map<Seq<char>, Seq<char>>,
)
    requires
        are_rendered(html, card, images, uploaded),
        render_laws::grows(uploaded, more),
    ensures
        are_rendered(html, card, images, more),
{
    assert forall|k: int| 0 <= k < html.len() implies render_laws::is_html_of(
        #[trigger] html[k],
        card_note::texts_of(card)[k],
        images,
        more,
    ) by {
        render_laws::lemma_html_grows(
            html[k],
            card_note::texts_of(card)[k],
            images,
            uploaded,
            more,
        );
    }
}

/// A note that is made from a card stays so when more is uploaded.
proof fn lemma_made_grows(
    note: NoteModel,
    scope: ScopeModel,
    card: ScopedModel,
    images: Seq<ImageModel>,
    uploaded: Map<Seq<char>, Seq<char>>,
    more: Map<Seq<char>, Seq<char>>,
    config: ConfigModel,
)
    requires
        is_made_from(note, scope, card, images, uploaded, config),
        render_laws::grows(uploaded, more),
    ensures
        is_made_from(note, scope, card, images, more, config),
{
    let html = choose|html: Seq<Seq<char>>|
        {
            &&& html.len() == card_note::texts_of(card.card).len()
            &&& are_rendered(html, card.card, images, uploaded)
            &&& note == #[trigger] card_note::note_of(
                card.card,
                html,
                sync::tags_in(scope, card, config),
                config,
            )
        };
    lemma_rendered_grows(html, card.card, images, uploaded, more);
}

/// A draft of a card whose first text has just been taken up is one of the card.
proof fn lemma_first_draft(plan: PlanModel, anki_id: Option<u64>, config: ConfigModel)
    ensures
        is_draft_of(
            sync::first_draft(plan, anki_id, config),
            plan.scope.cards[plan.next].card,
            plan.images[plan.scope.cards[plan.next].note_id],
            plan.uploaded,
        ),
{
    reveal(is_draft_of);
    render_laws::lemma_untouched_over(
        card_note::texts_of(plan.scope.cards[plan.next].card)[0],
        plan.images[plan.scope.cards[plan.next].note_id],
        plan.uploaded,
    );
}

/// A step with a draft leaves one of the same card, or all texts of the card rendered.
proof fn lemma_draft_step(
    draft: DraftModel,
    card: CardModel,
    images: Seq<ImageModel>,
    uploaded: Map<Seq<char>, Seq<char>>,
)
    requires
        is_draft_of(draft, card, images, uploaded),
        0 <= draft.pass.next <= images.len(),
        draft.html.len() < card_note::texts_of(card).len(),
    ensures
        ({
            let pass = render::placed(draft.pass, images, uploaded);
            let html = draft.html.push(render::rendered(pass.text));
            let texts = card_note::texts_of(card);
            &&& is_draft_of(DraftModel { pass, ..draft }, card, images, uploaded)
            &&& pass.next >= images.len() ==> are_rendered(html, card, images, uploaded)
            &&& pass.next >= images.len() && html.len() < texts.len() ==> is_draft_of(
                DraftModel { html, pass: render::untouched(texts[html.len() as int]), ..draft },
                card,
                images,
                uploaded,
            )
        }),
{
    reveal(is_draft_of);
    let texts = card_note::texts_of(card);
    let text = texts[draft.html.len() as int];
    let pass = render::placed(draft.pass, images, uploaded);
    let html = draft.html.push(render::rendered(pass.text));
    lemma_placed(draft.pass, images, uploaded);
    render_laws::lemma_placed_over(draft.pass, text, images, uploaded);
    if pass.next >= images.len() {
        assert(render_laws::is_html_of(render::rendered(pass.text), text, images, uploaded));
        assert forall|k: int| 0 <= k < html.len() implies render_laws::is_html_of(
            #[trigger] html[k],
            texts[k],
            images,
            uploaded,
        ) by {
            if k < draft.html.len() {
                assert(html[k] == draft.html[k]);
            }
        }
        if html.len() < texts.len() {
            render_laws::lemma_untouched_over(texts[html.len() as int], images, uploaded);
        }
    }
}

/// A draft stays one of its card when the image that it waits for is uploaded, or is not.
proof fn lemma_draft_reply(
    draft: DraftModel,
    card: CardModel,
    images: Seq<ImageModel>,
    uploaded: Map<Seq<char>, Seq<char>>,
)
    requires
        is_draft_of(draft, card, images, uploaded),
        render::awaits_upload(draft.pass, images),
        !uploaded.contains_key(images[draft.pass.next].upload_key),
    ensures
        is_draft_of(
            (DraftModel { pass: render::after_upload(draft.pass, images), ..draft }),
            card,
            images,
            uploaded.insert(
                images[draft.pass.next].upload_key,
                render::anki_name(images[draft.pass.next]),
            ),
        ),
        is_draft_of(
            (DraftModel {
                pass: render::PassModel { next: draft.pass.next + 1, ..draft.pass },
                ..draft
            }),
            card,
            images,
            uploaded,
        ),
{
    reveal(is_draft_of);
    let text = card_note::texts_of(card)[draft.html.len() as int];
    let image = images[draft.pass.next];
    let more = uploaded.insert(image.upload_key, render::anki_name(image));
    lemma_rendered_grows(draft.html, card, images, uploaded, more);
    render_laws::lemma_over_grows(draft.pass, text, images, uploaded, more);
    render_laws::lemma_next_over(draft.pass, text, images, more, Some(render::anki_name(image)));
    render_laws::lemma_next_over(draft.pass, text, images, uploaded, None);
}

/// The pending card is that card of the plan, with its digest and a note made from it.
pub open spec fn is_pending(
    pending: AddModel,
    plan: PlanModel,
    config: ConfigModel,
    j: int,
) -> bool {
    &&& stands_for(pending, plan.scope.cards[j], hash_at(plan, j, config))
    &&& is_made_from(
        pending.note,
        plan.scope,
        plan.scope.cards[j],
        plan.images[plan.scope.cards[j].note_id],
        plan.uploaded,
        config,
    )
}

/// What has been decided on a card is in the plan.
pub open spec fn is_carried_out(
    plan: PlanModel,
    known: StateModel,
    options: OptionsModel,
    j: int,
) -> bool {
    match decision_at(plan, known, options, j) {
        Decision::Skip => true,
        Decision::Update(anki_id) => exists|x: int|
            0 <= x < plan.updates.len() && (#[trigger] plan.updates[x]).anki_id == anki_id
                && is_pending(plan.updates[x].card, plan, options.config, j),
        Decision::Add => exists|x: int|
            0 <= x < plan.adds.len() && is_pending(
                #[trigger] plan.adds[x],
                plan,
                options.config,
                j,
            ),
    }
}

/// What has been decided on each card that the plan has looked at is in the plan.
pub open spec fn carries_out(plan: PlanModel, known: StateModel, options: OptionsModel) -> bool {
    &&& forall|j: int|
        0 <= j < plan.next ==> #[trigger] is_carried_out(plan, known, options, j)
            && plan.images.contains_key(plan.scope.cards[j].note_id)
    &&& plan.draft matches Some(draft) ==> {
        &&& draft.hash == hash_at(plan, plan.next, options.config)
        &&& draft.tags == sync::tags_in(plan.scope, plan.scope.cards[plan.next], options.config)
        &&& is_draft_of(
            draft,
            plan.scope.cards[plan.next].card,
            plan.images[plan.scope.cards[plan.next].note_id],
            plan.uploaded,
        )
        &&& match decision_at(plan, known, options, plan.next) {
            Decision::Skip => false,
            Decision::Update(anki_id) => draft.anki_id == Some(anki_id),
            Decision::Add => draft.anki_id is None,
        }
    }
}

/// What a plan carries out stays so when its lists grow and it learns of more images.
proof fn lemma_still_carried_out(
    plan: PlanModel,
    more: PlanModel,
    known: StateModel,
    options: OptionsModel,
    j: int,
)
    requires
        0 <= j < plan.next,
        carries_out(plan, known, options),
        more.scope == plan.scope,
        more.images.contains_key(plan.scope.cards[j].note_id),
        more.images[plan.scope.cards[j].note_id] == plan.images[plan.scope.cards[j].note_id],
        plan.updates.is_prefix_of(more.updates),
        plan.adds.is_prefix_of(more.adds),
        render_laws::grows(plan.uploaded, more.uploaded),
    ensures
        is_carried_out(more, known, options, j),
{
    let card = plan.scope.cards[j];
    assert(is_carried_out(plan, known, options, j));
    assert(hash_at(more, j, options.config) == hash_at(plan, j, options.config));
    match decision_at(plan, known, options, j) {
        Decision::Skip => {},
        Decision::Update(anki_id) => {
            let x = choose|x: int|
                0 <= x < plan.updates.len() && (#[trigger] plan.updates[x]).anki_id == anki_id
                    && is_pending(plan.updates[x].card, plan, options.config, j);
            assert(more.updates[x] == plan.updates[x]);
            lemma_made_grows(
                plan.updates[x].card.note,
                plan.scope,
                card,
                plan.images[card.note_id],
                plan.uploaded,
                more.uploaded,
                options.config,
            );
            assert(is_pending(more.updates[x].card, more, options.config, j));
        },
        Decision::Add => {
            let x = choose|x: int|
                0 <= x < plan.adds.len() && is_pending(
                    #[trigger] plan.adds[x],
                    plan,
                    options.config,
                    j,
                );
            assert(more.adds[x] == plan.adds[x]);
            lemma_made_grows(
                plan.adds[x].note,
                plan.scope,
                card,
                plan.images[card.note_id],
                plan.uploaded,
                more.uploaded,
                options.config,
            );
            assert(is_pending(more.adds[x], more, options.config, j));
        },
    }
}

/// What is left of a draft after an event is a draft of the same card.
proof fn lemma_draft_stays(
    plan: PlanModel,
    known: StateModel,
    options: OptionsModel,
    event: PlanEvent,
)
    requires
        sync::is_sound(plan),
        plan_event_fits(plan, event),
        plan.draft matches Some(draft) ==> is_draft_of(
            draft,
            plan.scope.cards[plan.next].card,
            plan.images[plan.scope.cards[plan.next].note_id],
            plan.uploaded,
        ),
    ensures
        ({
            let more = after_plan_event(plan, known, options, event);
            more.draft matches Some(draft) ==> is_draft_of(
                draft,
                more.scope.cards[more.next].card,
                more.images[more.scope.cards[more.next].note_id],
                more.uploaded,
            )
        }),
{
    let card = plan.scope.cards[plan.next];
    let images = plan.images[card.note_id];
    match plan.draft {
        Some(draft) => {
            match event {
                PlanEvent::Step => {
                    lemma_draft_step(draft, card.card, images, plan.uploaded);
                },
                PlanEvent::Images(_, _) => {},
                PlanEvent::Uploaded | PlanEvent::Failed => {
                    lemma_draft_reply(draft, card.card, images, plan.uploaded);
                },
            }
        },
        None => {
            lemma_first_draft(plan, None, options.config);
            if let Decision::Update(anki_id) = sync::next_decision(plan, known, options) {
                lemma_first_draft(plan, Some(anki_id), options.config);
            }
        },
    }
}

/// A note that is finished is made from its card.
proof fn lemma_finished_note(plan: PlanModel, draft: DraftModel, config: ConfigModel)
    requires
        sync::is_sound(plan),
        plan.draft == Some(draft),
        is_draft_of(
            draft,
            plan.scope.cards[plan.next].card,
            plan.images[plan.scope.cards[plan.next].note_id],
            plan.uploaded,
        ),
        draft.tags == sync::tags_in(plan.scope, plan.scope.cards[plan.next], config),
        sync::after_rendering(plan, draft, config).draft is None,
    ensures
        ({
            let card = plan.scope.cards[plan.next];
            let images = plan.images[card.note_id];
            let pass = render::placed(draft.pass, images, plan.uploaded);
            let html = draft.html.push(render::rendered(pass.text));
            let note = card_note::note_of(card.card, html, draft.tags, config);
            &&& sync::after_rendering(plan, draft, config) == sync::after_note(
                plan,
                draft,
                html,
                config,
            )
            &&& is_made_from(note, plan.scope, card, images, plan.uploaded, config)
        }),
{
    let card = plan.scope.cards[plan.next];
    let images = plan.images[card.note_id];
    lemma_draft_step(draft, card.card, images, plan.uploaded);
}

/// Each event leaves a plan that holds what has been decided on each card it has looked at.
proof fn lemma_carries_out(
    plan: PlanModel,
    known: StateModel,
    options: OptionsModel,
    event: PlanEvent,
)
    requires
        sync::is_sound(plan),
        carries_out(plan, known, options),
        plan_event_fits(plan, event),
        !options.dry_run,
    ensures
        carries_out(after_plan_event(plan, known, options, event), known, options),
{
    let more = after_plan_event(plan, known, options, event);
    let config = options.config;
    lemma_draft_stays(plan, known, options, event);
    if more.next > plan.next {
        let j = plan.next;
        assert(hash_at(more, j, config) == hash_at(plan, j, config));
        if let Some(draft) = plan.draft {
            lemma_finished_note(plan, draft, config);
            if draft.anki_id is Some {
                assert(is_pending(more.updates[plan.updates.len() as int].card, more, config, j));
            } else {
                assert(is_pending(more.adds[plan.adds.len() as int], more, config, j));
            }
        }
        assert(is_carried_out(more, known, options, j));
    }
    if plan.next < plan.scope.cards.len() {
        if plan.images.contains_key(plan.scope.cards[plan.next].note_id) {
            assert(hash_at(more, plan.next, config) == hash_at(plan, plan.next, config));
        }
    }
    assert forall|j: int| 0 <= j < more.next implies #[trigger] is_carried_out(
        more,
        known,
        options,
        j,
    ) && more.images.contains_key(more.scope.cards[j].note_id) by {
        if j < plan.next {
            assert(is_carried_out(plan, known, options, j));
            lemma_still_carried_out(plan, more, known, options, j);
        } else {
            assert(j == plan.next);
        }
    }
    if let Some(draft) = more.draft {
        assert(more.next == plan.next);
        assert(decision_at(more, known, options, more.next) == decision_at(
            plan,
            known,
            options,
            plan.next,
        ));
    }
    assert(carries_out(more, known, options));
}

/// A plan that is complete holds what has been decided on each card: a changed card is updated in
/// the note that it is tracked with, and a new one is added.
pub proof fn law_plan_holds_what_was_decided(
    scope: ScopeModel,
    known: StateModel,
    options: OptionsModel,
    events: Seq<PlanEvent>,
)
    requires
        scope::identities_differ(scope.cards),
        scope.cards.len() <= usize::MAX,
        !options.dry_run,
    ensures
        planned(sync::first_plan(scope), known, options, events) matches Some(plan)
            ==> carries_out(plan, known, options) && sync::is_sound(plan) && plan.scope == scope,
    decreases events.len(),
{
    if events.len() > 0 {
        law_plan_holds_what_was_decided(scope, known, options, events.drop_last());
        if let Some(before) = planned(
            sync::first_plan(scope),
            known,
            options,
            events.drop_last(),
        ) {
            if plan_event_fits(before, events.last()) {
                lemma_plan_stays_sound(before, known, options, events.last());
                lemma_carries_out(before, known, options, events.last());
            }
        }
    }
}

/// The pending card is one of the cards that the plan has looked at, with its digest and a note
/// made from it.
pub open spec fn is_of_a_card(pending: AddModel, plan: PlanModel, config: ConfigModel) -> bool {
    exists|j: int|
        0 <= j < plan.next && plan.images.contains_key(
            (#[trigger] plan.scope.cards[j]).note_id,
        ) && is_pending(pending, plan, config, j)
}

/// Every change of a plan is one of a card, with its digest and a note made from it.
pub open spec fn changes_are_of_cards(plan: PlanModel, config: ConfigModel) -> bool {
    &&& forall|x: int|
        0 <= x < plan.updates.len() ==> is_of_a_card(
            (#[trigger] plan.updates[x]).card,
            plan,
            config,
        )
    &&& forall|x: int|
        0 <= x < plan.adds.len() ==> is_of_a_card(#[trigger] plan.adds[x], plan, config)
}

/// A pending card that is one of a card stays so.
proof fn lemma_still_of_a_card(
    pending: AddModel,
    plan: PlanModel,
    more: PlanModel,
    config: ConfigModel,
)
    requires
        is_of_a_card(pending, plan, config),
        more.scope == plan.scope,
        more.next >= plan.next,
        forall|note_id: Seq<char>| #[trigger]
            plan.images.contains_key(note_id) ==> more.images.contains_key(note_id)
                && more.images[note_id] == plan.images[note_id],
        render_laws::grows(plan.uploaded, more.uploaded),
    ensures
        is_of_a_card(pending, more, config),
{
    let j = choose|j: int|
        0 <= j < plan.next && plan.images.contains_key(
            (#[trigger] plan.scope.cards[j]).note_id,
        ) && is_pending(pending, plan, config, j);
    let card = plan.scope.cards[j];
    assert(hash_at(more, j, config) == hash_at(plan, j, config));
    lemma_made_grows(
        pending.note,
        plan.scope,
        card,
        plan.images[card.note_id],
        plan.uploaded,
        more.uploaded,
        config,
    );
    assert(is_pending(pending, more, config, j));
    assert(more.images.contains_key(more.scope.cards[j].note_id));
}

/// Every change of a plan is one of a card that the plan has looked at: it carries the digest of
/// the card and a note made from it.
pub proof fn law_changes_are_of_cards(
    scope: ScopeModel,
    known: StateModel,
    options: OptionsModel,
    events: Seq<PlanEvent>,
)
    requires
        scope::identities_differ(scope.cards),
        scope.cards.len() <= usize::MAX,
        !options.dry_run,
    ensures
        planned(sync::first_plan(scope), known, options, events) matches Some(plan)
            ==> changes_are_of_cards(plan, options.config),
    decreases events.len(),
{
    if events.len() > 0 {
        let config = options.config;
        let front = events.drop_last();
        law_changes_are_of_cards(scope, known, options, front);
        law_plan_holds_what_was_decided(scope, known, options, front);
        if let Some(plan) = planned(sync::first_plan(scope), known, options, front) {
            if plan_event_fits(plan, events.last()) {
                let more = after_plan_event(plan, known, options, events.last());
                let j = plan.next;
                if let Some(draft) = plan.draft {
                    if more.next > plan.next {
                        lemma_finished_note(plan, draft, config);
                        assert(hash_at(more, j, config) == hash_at(plan, j, config));
                        assert(more.images.contains_key(more.scope.cards[j].note_id));
                        if draft.anki_id is Some {
                            assert(is_pending(more.updates.last().card, more, config, j));
                            assert(is_of_a_card(more.updates.last().card, more, config));
                        } else {
                            assert(is_pending(more.adds.last(), more, config, j));
                            assert(is_of_a_card(more.adds.last(), more, config));
                        }
                    }
                }
                assert forall|x: int| 0 <= x < more.updates.len() implies is_of_a_card(
                    (#[trigger] more.updates[x]).card,
                    more,
                    config,
                ) by {
                    if x < plan.updates.len() {
                        assert(more.updates[x] == plan.updates[x]);
                        lemma_still_of_a_card(plan.updates[x].card, plan, more, config);
                    }
                }
                assert forall|x: int| 0 <= x < more.adds.len() implies is_of_a_card(
                    #[trigger] more.adds[x],
                    more,
                    config,
                ) by {
                    if x < plan.adds.len() {
                        assert(more.adds[x] == plan.adds[x]);
                        lemma_still_of_a_card(plan.adds[x], plan, more, config);
                    }
                }
            }
        }
    }
}

/// An update is one of the note that the card is tracked with, and an addition one of a card that
/// is not tracked.
pub open spec fn keeps_numbers(plan: PlanModel, known: StateModel) -> bool {
    &&& forall|x: int|
        0 <= x < plan.updates.len() ==> {
            let key = apply::pending_key((#[trigger] plan.updates[x]).card);
            known.cards.contains_key(key) && known.cards[key] == plan.updates[x].anki_id
        }
    &&& forall|x: int|
        0 <= x < plan.adds.len() ==> !known.cards.contains_key(
            apply::pending_key(#[trigger] plan.adds[x]),
        )
    &&& plan.draft matches Some(draft) ==> {
        let key = sync::scoped_key(plan.scope.cards[plan.next]);
        match draft.anki_id {
            Some(anki_id) => known.cards.contains_key(key) && known.cards[key] == anki_id,
            None => !known.cards.contains_key(key),
        }
    }
}

/// A plan updates a tracked card in its note, and adds only cards that are not tracked.
pub proof fn law_plan_keeps_the_numbers(
    scope: ScopeModel,
    known: StateModel,
    options: OptionsModel,
    events: Seq<PlanEvent>,
)
    ensures
        planned(sync::first_plan(scope), known, options, events) matches Some(plan)
            ==> keeps_numbers(plan, known),
    decreases events.len(),
{
    if events.len() > 0 {
        let front = events.drop_last();
        law_plan_keeps_the_numbers(scope, known, options, front);
    }
}

/// A dry run plans no change, and uploads nothing.
pub proof fn law_dry_run_plans_nothing(
    plan: PlanModel,
    known: StateModel,
    options: OptionsModel,
    event: PlanEvent,
)
    requires
        sync::is_sound(plan),
        plan_event_fits(plan, event),
        options.dry_run,
        plan.draft is None,
    ensures
        ({
            let more = after_plan_event(plan, known, options, event);
            &&& more.draft is None
            &&& more.updates == plan.updates
            &&& more.adds == plan.adds
            &&& more.uploaded == plan.uploaded
            &&& !(sync::step_action(plan, known, options) is Upload)
        }),
{
}

/// A dry run comes to a plan without changes.
pub proof fn lemma_dry_plan(
    scope: ScopeModel,
    known: StateModel,
    options: OptionsModel,
    events: Seq<PlanEvent>,
)
    requires
        scope::identities_differ(scope.cards),
        scope.cards.len() <= usize::MAX,
        options.dry_run,
    ensures
        planned(sync::first_plan(scope), known, options, events) matches Some(plan) ==> {
            &&& sync::is_sound(plan)
            &&& plan.draft is None
            &&& plan.updates.len() == 0
            &&& plan.adds.len() == 0
            &&& plan.uploaded == Map::<Seq<char>, Seq<char>>::empty()
        },
    decreases events.len(),
{
    if events.len() > 0 {
        lemma_dry_plan(scope, known, options, events.drop_last());
        if let Some(before) = planned(
            sync::first_plan(scope),
            known,
            options,
            events.drop_last(),
        ) {
            if plan_event_fits(before, events.last()) {
                lemma_plan_stays_sound(before, known, options, events.last());
                law_dry_run_plans_nothing(before, known, options, events.last());
            }
        }
    }
}

/// A forced run skips no card; another skips exactly the known cards whose digest has not
/// changed.
pub proof fn law_unchanged_cards_are_skipped(
    plan: PlanModel,
    known: StateModel,
    options: OptionsModel,
)
    requires
        sync::is_sound(plan),
        plan.next < plan.scope.cards.len(),
    ensures
        sync::next_decision(plan, known, options) is Skip <==> !options.force && is_settled(
            known,
            plan.scope.cards[plan.next],
            hash_at(plan, plan.next, options.config),
        ),
{
}

} // verus!
