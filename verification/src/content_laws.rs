//! What the notes of a run show.

use vstd::prelude::*;

use crate::anki::NoteModel;
use crate::apply;
use crate::apply::ApplyModel;
use crate::apply_laws;
use crate::apply_laws::ApplyEvent;
use crate::card_laws;
use crate::card_note;
use crate::config::ConfigModel;
use crate::parser::{CardModel, Sides};
use crate::render;
use crate::render::ImageModel;
use crate::render_laws;
use crate::scope;
use crate::scope::ScopeModel;
use crate::state::StateModel;
use crate::sync;
use crate::sync::{AddModel, Decision, DraftModel, OptionsModel, PlanModel, UpdateModel};
use crate::sync_laws;
use crate::sync_laws::PlanEvent;

verus! {

// ── Whole notes ──────────────────────────────────────────────────────────────

/// The HTML of a text with all its images in place.
pub open spec fn whole_text(text: Seq<char>, images: Seq<ImageModel>) -> Seq<char> {
    render::rendered(render_laws::illustrated(render::untouched(text), images))
}

/// The HTML of each text of a card, with all its images in place.
pub open spec fn whole_texts(card: CardModel, images: Seq<ImageModel>) -> Seq<Seq<char>> {
    Seq::new(
        card_note::texts_of(card).len(),
        |k: int| whole_text(card_note::texts_of(card)[k], images),
    )
}

/// The note of a card of a plan, with all images in place.
pub open spec fn whole_note(plan: PlanModel, j: int, config: ConfigModel) -> NoteModel {
    let card = plan.scope.cards[j];
    card_note::note_of(
        card.card,
        whole_texts(card.card, plan.images[card.note_id]),
        sync::tags_in(plan.scope, card, config),
        config,
    )
}

/// A card of a plan with its digest and its note.
pub open spec fn whole_card(plan: PlanModel, j: int, config: ConfigModel) -> AddModel {
    AddModel {
        note_id: plan.scope.cards[j].note_id,
        fp: plan.scope.cards[j].card.fingerprint,
        hash: sync_laws::hash_at(plan, j, config),
        note: whole_note(plan, j, config),
    }
}

/// The note of a basic card shows its front and its back, and that of a card with blanks its text:
/// as HTML, with all images in place. It has the deck and the tags of the card.
pub proof fn law_notes_show_all_sides(plan: PlanModel, j: int, config: ConfigModel)
    ensures
        ({
            let card = plan.scope.cards[j];
            let images = plan.images[card.note_id];
            let note = whole_note(plan, j, config);
            &&& note.deck == card.card.deck
            &&& note.tags == sync::tags_in(plan.scope, card, config)
            &&& match card.card.kind {
                Sides::Basic { front, back } => note.fields == seq![
                    ("Front"@, card_note::prompt_of(whole_text(front, images), card.card, config)),
                    ("Back"@, whole_text(back, images)),
                ],
                Sides::Cloze { text } => note.fields == seq![
                    ("Text"@, card_note::prompt_of(whole_text(text, images), card.card, config)),
                ],
            }
        }),
{
}

// ── Uploads ──────────────────────────────────────────────────────────────────

/// Attachments with the same key have the same file name.
pub open spec fn keys_name_files(images: Map<Seq<char>, Seq<ImageModel>>) -> bool {
    forall|a: Seq<char>, i: int, b: Seq<char>, k: int|
        #![trigger images[a][i], images[b][k]]
        images.contains_key(a) && images.contains_key(b) && 0 <= i < images[a].len() && 0 <= k
            < images[b].len() && images[a][i].upload_key == images[b][k].upload_key
            ==> images[a][i].filename == images[b][k].filename
}

/// One of the images has that key, and goes by that name in Anki.
pub open spec fn is_name_of(
    images: Map<Seq<char>, Seq<ImageModel>>,
    key: Seq<char>,
    name: Seq<char>,
) -> bool {
    exists|note_id: Seq<char>, i: int|
        images.contains_key(note_id) && 0 <= i < images[note_id].len()
            && (#[trigger] images[note_id][i]).upload_key == key && render::anki_name(
            images[note_id][i],
        ) == name
}

/// Each upload is one of an image under its name.
pub open spec fn uploads_are_named(plan: PlanModel) -> bool {
    forall|key: Seq<char>| #[trigger]
        plan.uploaded.contains_key(key) ==> is_name_of(plan.images, key, plan.uploaded[key])
}

/// No upload fails.
pub open spec fn all_uploads_succeed(events: Seq<PlanEvent>) -> bool {
    forall|n: int| 0 <= n < events.len() ==> !((#[trigger] events[n]) is Failed)
}

/// One plan has the images that the other one has.
pub open spec fn has_images_of(more: PlanModel, plan: PlanModel) -> bool {
    forall|note_id: Seq<char>| #[trigger]
        plan.images.contains_key(note_id) ==> more.images.contains_key(note_id)
            && more.images[note_id] == plan.images[note_id]
}

/// The images of a note have been uploaded under their names, as far as they have been uploaded.
proof fn lemma_uploads_agree(plan: PlanModel, note_id: Seq<char>)
    requires
        uploads_are_named(plan),
        keys_name_files(plan.images),
        plan.images.contains_key(note_id),
    ensures
        render_laws::uploads_agree(plan.images[note_id], plan.uploaded),
{
    let images = plan.images[note_id];
    assert forall|i: int|
        0 <= i < images.len() && plan.uploaded.contains_key(
            (#[trigger] images[i]).upload_key,
        ) implies plan.uploaded[images[i].upload_key] == render::anki_name(images[i]) by {
        let key = images[i].upload_key;
        assert(is_name_of(plan.images, key, plan.uploaded[key]));
        let (other, k) = choose|other: Seq<char>, k: int|
            plan.images.contains_key(other) && 0 <= k < plan.images[other].len()
                && (#[trigger] plan.images[other][k]).upload_key == key && render::anki_name(
                plan.images[other][k],
            ) == plan.uploaded[key];
        assert(plan.images[note_id][i].filename == plan.images[other][k].filename);
    }
}

// ── Planning ─────────────────────────────────────────────────────────────────

/// The draft shows all of the card so far, and is on the way to show the rest.
#[verifier::opaque]
pub open spec fn is_whole_draft(
    draft: DraftModel,
    card: CardModel,
    images: Seq<ImageModel>,
) -> bool {
    &&& forall|k: int|
        0 <= k < draft.html.len() ==> #[trigger] draft.html[k] == whole_text(
            card_note::texts_of(card)[k],
            images,
        )
    &&& render_laws::illustrated(draft.pass, images) == render_laws::illustrated(
        render::untouched(card_note::texts_of(card)[draft.html.len() as int]),
        images,
    )
}

/// The pending card has the note of a card that the plan has looked at.
pub open spec fn is_whole(pending: AddModel, plan: PlanModel, config: ConfigModel) -> bool {
    exists|j: int|
        {
            &&& 0 <= j < plan.next
            &&& (#[trigger] plan.scope.cards[j]).note_id == pending.note_id
            &&& plan.scope.cards[j].card.fingerprint == pending.fp
            &&& plan.images.contains_key(pending.note_id)
            &&& pending.note == whole_note(plan, j, config)
        }
}

/// The notes of all pending cards show all of their cards, and so will the draft.
pub open spec fn shows_all(plan: PlanModel, config: ConfigModel) -> bool {
    &&& uploads_are_named(plan)
    &&& forall|x: int|
        0 <= x < plan.updates.len() ==> is_whole((#[trigger] plan.updates[x]).card, plan, config)
    &&& forall|x: int| 0 <= x < plan.adds.len() ==> is_whole(#[trigger] plan.adds[x], plan, config)
    &&& plan.draft matches Some(draft) ==> {
        let card = plan.scope.cards[plan.next];
        &&& draft.tags == sync::tags_in(plan.scope, card, config)
        &&& is_whole_draft(draft, card.card, plan.images[card.note_id])
    }
}

/// A pending card that has the note of its card keeps it.
proof fn lemma_still_whole(
    pending: AddModel,
    plan: PlanModel,
    more: PlanModel,
    config: ConfigModel,
)
    requires
        is_whole(pending, plan, config),
        more.scope == plan.scope,
        more.next >= plan.next,
        has_images_of(more, plan),
    ensures
        is_whole(pending, more, config),
{
    let j = choose|j: int|
        {
            &&& 0 <= j < plan.next
            &&& (#[trigger] plan.scope.cards[j]).note_id == pending.note_id
            &&& plan.scope.cards[j].card.fingerprint == pending.fp
            &&& plan.images.contains_key(pending.note_id)
            &&& pending.note == whole_note(plan, j, config)
        };
    assert(whole_note(more, j, config) == whole_note(plan, j, config));
    assert(more.scope.cards[j].note_id == pending.note_id);
}

/// A draft whose first text has just been taken up is on the way to show all of the card.
proof fn lemma_first_whole_draft(plan: PlanModel, anki_id: Option<u64>, config: ConfigModel)
    ensures
        is_whole_draft(
            sync::first_draft(plan, anki_id, config),
            plan.scope.cards[plan.next].card,
            plan.images[plan.scope.cards[plan.next].note_id],
        ),
{
    reveal(is_whole_draft);
}

/// A step with such a draft leaves one, or all texts of the card rendered.
proof fn lemma_whole_step(
    draft: DraftModel,
    card: CardModel,
    images: Seq<ImageModel>,
    uploaded: Map<Seq<char>, Seq<char>>,
)
    requires
        is_whole_draft(draft, card, images),
        0 <= draft.pass.next <= images.len(),
        draft.html.len() < card_note::texts_of(card).len(),
        render_laws::uploads_agree(images, uploaded),
    ensures
        ({
            let pass = render::placed(draft.pass, images, uploaded);
            let html = draft.html.push(render::rendered(pass.text));
            let texts = card_note::texts_of(card);
            &&& is_whole_draft(DraftModel { pass, ..draft }, card, images)
            &&& pass.next >= images.len() && html.len() < texts.len() ==> is_whole_draft(
                DraftModel { html, pass: render::untouched(texts[html.len() as int]), ..draft },
                card,
                images,
            )
            &&& pass.next >= images.len() && html.len() >= texts.len() ==> html == whole_texts(
                card,
                images,
            )
        }),
{
    reveal(is_whole_draft);
    let texts = card_note::texts_of(card);
    let pass = render::placed(draft.pass, images, uploaded);
    let html = draft.html.push(render::rendered(pass.text));
    sync_laws::lemma_placed(draft.pass, images, uploaded);
    render_laws::law_images_come_out_the_same(draft.pass, images, uploaded);
    if pass.next >= images.len() {
        assert forall|k: int| 0 <= k < html.len() implies #[trigger] html[k] == whole_text(
            texts[k],
            images,
        ) by {
            if k < draft.html.len() {
                assert(html[k] == draft.html[k]);
            }
        }
        if html.len() >= texts.len() {
            assert(html =~= whole_texts(card, images));
        }
    }
}

/// Such a draft stays one when the image that it waits for is uploaded.
proof fn lemma_whole_upload(draft: DraftModel, card: CardModel, images: Seq<ImageModel>)
    requires
        is_whole_draft(draft, card, images),
        render::awaits_upload(draft.pass, images),
    ensures
        is_whole_draft(
            (DraftModel { pass: render::after_upload(draft.pass, images), ..draft }),
            card,
            images,
        ),
{
    reveal(is_whole_draft);
}

/// Each upload is one of an image under its name, after each event.
proof fn lemma_uploads_are_named(
    plan: PlanModel,
    known: StateModel,
    options: OptionsModel,
    event: PlanEvent,
)
    requires
        sync::is_sound(plan),
        uploads_are_named(plan),
        sync_laws::plan_event_fits(plan, event),
    ensures
        uploads_are_named(sync_laws::after_plan_event(plan, known, options, event)),
        has_images_of(sync_laws::after_plan_event(plan, known, options, event), plan),
        sync_laws::after_plan_event(plan, known, options, event).next >= plan.next,
{
    let more = sync_laws::after_plan_event(plan, known, options, event);
    assert forall|key: Seq<char>| #[trigger] more.uploaded.contains_key(key) implies is_name_of(
        more.images,
        key,
        more.uploaded[key],
    ) by {
        if plan.uploaded.contains_key(key) && plan.uploaded[key] == more.uploaded[key] {
            assert(is_name_of(plan.images, key, plan.uploaded[key]));
            let (note_id, i) = choose|note_id: Seq<char>, i: int|
                plan.images.contains_key(note_id) && 0 <= i < plan.images[note_id].len()
                    && (#[trigger] plan.images[note_id][i]).upload_key == key && render::anki_name(
                    plan.images[note_id][i],
                ) == plan.uploaded[key];
            assert(more.images[note_id][i].upload_key == key);
        } else {
            let note_id = plan.scope.cards[plan.next].note_id;
            let i = plan.draft->0.pass.next;
            assert(more.images[note_id][i].upload_key == key);
        }
    }
}

/// Each event but a failed upload leaves a plan that shows all of the cards.
proof fn lemma_shows_all(
    plan: PlanModel,
    known: StateModel,
    options: OptionsModel,
    event: PlanEvent,
)
    requires
        sync::is_sound(plan),
        shows_all(plan, options.config),
        keys_name_files(plan.images),
        sync_laws::plan_event_fits(plan, event),
        !(event is Failed),
    ensures
        shows_all(sync_laws::after_plan_event(plan, known, options, event), options.config),
{
    let config = options.config;
    let more = sync_laws::after_plan_event(plan, known, options, event);
    let card = plan.scope.cards[plan.next];
    let images = plan.images[card.note_id];
    lemma_uploads_are_named(plan, known, options, event);
    sync_laws::lemma_plan_stays_sound(plan, known, options, event);
    match plan.draft {
        Some(draft) => {
            lemma_uploads_agree(plan, card.note_id);
            match event {
                PlanEvent::Step => {
                    lemma_whole_step(draft, card.card, images, plan.uploaded);
                    if more.draft is None {
                        let note = whole_note(more, plan.next, config);
                        assert(more.scope.cards[plan.next] == card);
                        if draft.anki_id is Some {
                            assert(more.updates.last().card.note == note);
                            assert(is_whole(more.updates.last().card, more, config));
                        } else {
                            assert(more.adds.last().note == note);
                            assert(is_whole(more.adds.last(), more, config));
                        }
                    }
                },
                PlanEvent::Uploaded => {
                    lemma_whole_upload(draft, card.card, images);
                },
                _ => {},
            }
        },
        None => {
            lemma_first_whole_draft(plan, None, config);
            if let Decision::Update(anki_id) = sync::next_decision(plan, known, options) {
                lemma_first_whole_draft(plan, Some(anki_id), config);
            }
        },
    }
    assert forall|x: int| 0 <= x < more.updates.len() implies is_whole(
        (#[trigger] more.updates[x]).card,
        more,
        config,
    ) by {
        if x < plan.updates.len() {
            assert(more.updates[x] == plan.updates[x]);
            lemma_still_whole(plan.updates[x].card, plan, more, config);
        }
    }
    assert forall|x: int| 0 <= x < more.adds.len() implies is_whole(
        #[trigger] more.adds[x],
        more,
        config,
    ) by {
        if x < plan.adds.len() {
            assert(more.adds[x] == plan.adds[x]);
            lemma_still_whole(plan.adds[x], plan, more, config);
        }
    }
}

/// A plan whose uploads all succeed holds notes that show all of their cards, where attachments
/// with the same key have the same file name.
pub proof fn law_plan_shows_all_of_the_cards(
    scope: ScopeModel,
    known: StateModel,
    options: OptionsModel,
    events: Seq<PlanEvent>,
)
    requires
        scope::identities_differ(scope.cards),
        scope.cards.len() <= usize::MAX,
        all_uploads_succeed(events),
    ensures
        sync_laws::planned(sync::first_plan(scope), known, options, events) matches Some(plan) ==> {
            &&& sync::is_sound(plan)
            &&& plan.scope == scope
            &&& keys_name_files(plan.images) ==> shows_all(plan, options.config)
        },
    decreases events.len(),
{
    if events.len() > 0 {
        let front = events.drop_last();
        let event = events[events.len() - 1];
        assert(forall|n: int| 0 <= n < front.len() ==> #[trigger] front[n] == events[n]);
        law_plan_shows_all_of_the_cards(scope, known, options, front);
        if let Some(plan) = sync_laws::planned(sync::first_plan(scope), known, options, front) {
            if sync_laws::plan_event_fits(plan, event) {
                let more = sync_laws::after_plan_event(plan, known, options, event);
                sync_laws::lemma_plan_stays_sound(plan, known, options, event);
                if keys_name_files(more.images) {
                    lemma_fewer_images(plan, more);
                    lemma_shows_all(plan, known, options, event);
                }
            }
        }
    }
}

/// Attachments with the same key have the same file name among fewer images too.
proof fn lemma_fewer_images(plan: PlanModel, more: PlanModel)
    requires
        keys_name_files(more.images),
        has_images_of(more, plan),
    ensures
        keys_name_files(plan.images),
{
    assert forall|a: Seq<char>, i: int, b: Seq<char>, k: int|
        #![trigger plan.images[a][i], plan.images[b][k]]
        plan.images.contains_key(a) && plan.images.contains_key(b) && 0 <= i < plan.images[a].len()
            && 0 <= k < plan.images[b].len() && plan.images[a][i].upload_key
            == plan.images[b][k].upload_key implies plan.images[a][i].filename
        == plan.images[b][k].filename by {
        assert(more.images[a][i].filename == more.images[b][k].filename);
    }
}

// ── Runs ─────────────────────────────────────────────────────────────────────

/// A pending card that stands for a card of the plan, and has the note of a card, is that card
/// with its digest and its note.
proof fn lemma_whole_card(pending: AddModel, plan: PlanModel, j: int, config: ConfigModel)
    requires
        scope::identities_differ(plan.scope.cards),
        0 <= plan.next <= plan.scope.cards.len(),
        0 <= j < plan.scope.cards.len(),
        sync_laws::is_pending(pending, plan, config, j),
        is_whole(pending, plan, config),
    ensures
        pending == whole_card(plan, j, config),
{
    let cards = plan.scope.cards;
    let i = choose|i: int|
        {
            &&& 0 <= i < plan.next
            &&& (#[trigger] plan.scope.cards[i]).note_id == pending.note_id
            &&& plan.scope.cards[i].card.fingerprint == pending.fp
            &&& plan.images.contains_key(pending.note_id)
            &&& pending.note == whole_note(plan, i, config)
        };
    assert(scope::identity(cards[i]) == scope::identity(cards[j]));
    if i < j {
        assert(scope::identity(cards[i]) != scope::identity(cards[j]));
    } else if j < i {
        assert(scope::identity(cards[j]) != scope::identity(cards[i]));
    }
}

/// In a run that succeeds, Anki is sent all of a card that has changed: its note is updated with
/// the front and the back of the card, or its text, as HTML with all images in place, and the
/// cards of the note are moved to the deck of the card. This holds where Anki still has the note,
/// no upload fails, and attachments with the same key have the same file name.
pub proof fn law_changed_cards_are_sent_whole(
    scope: ScopeModel,
    known: StateModel,
    options: OptionsModel,
    plan_events: Seq<PlanEvent>,
    plan: PlanModel,
    apply_events: Seq<ApplyEvent>,
    end: ApplyModel,
    recorded: StateModel,
    j: int,
    number: u64,
)
    requires
        scope::identities_differ(scope.cards),
        scope.cards.len() <= usize::MAX,
        apply_laws::ids_are_plain(scope.cards),
        !options.dry_run,
        sync_laws::planned(sync::first_plan(scope), known, options, plan_events) == Some(plan),
        sync_laws::is_complete(plan),
        all_uploads_succeed(plan_events),
        keys_name_files(plan.images),
        apply_laws::applied(apply::first_apply(plan), known, options, apply_events) == Some(
            (end, recorded),
        ),
        card_laws::answers_requests(apply::first_apply(plan), known, options, apply_events),
        end.phase is Done,
        0 <= j < scope.cards.len(),
        sync_laws::decision_at(plan, known, options, j) == Decision::Update(number),
        card_laws::is_found(
            apply::first_apply(plan),
            known,
            options,
            apply_events,
            sync::scoped_key(scope.cards[j]),
        ),
    ensures
        ({
            let asked = card_laws::requests(
                apply::first_apply(plan),
                known,
                options,
                apply_events,
            );
            let update = UpdateModel {
                anki_id: number,
                card: whole_card(plan, j, options.config),
            };
            card_laws::asks_update(asked, update) && card_laws::asks_move(asked, update)
        }),
{
    let asked = card_laws::requests(apply::first_apply(plan), known, options, apply_events);
    law_plan_shows_all_of_the_cards(scope, known, options, plan_events);
    card_laws::law_changed_cards_are_updated_in_place(
        scope,
        known,
        options,
        plan_events,
        plan,
        apply_events,
        end,
        recorded,
        j,
        number,
    );
    let update = choose|update: UpdateModel|
        {
            &&& plan.updates.contains(update)
            &&& update.anki_id == number
            &&& sync_laws::is_pending(update.card, plan, options.config, j)
            &&& update.card.note.deck == plan.scope.cards[j].card.deck
            &&& #[trigger] card_laws::asks_update(asked, update)
            &&& card_laws::asks_move(asked, update)
        };
    let x = choose|x: int| 0 <= x < plan.updates.len() && plan.updates[x] == update;
    assert(is_whole(plan.updates[x].card, plan, options.config));
    lemma_whole_card(update.card, plan, j, options.config);
}

/// In a run that succeeds, Anki is sent all of a card that is not tracked: a note is added with
/// the front and the back of the card, or its text, as HTML with all images in place, in the deck
/// of the card. This holds where no upload fails, and attachments with the same key have the same
/// file name.
pub proof fn law_new_cards_are_sent_whole(
    scope: ScopeModel,
    known: StateModel,
    options: OptionsModel,
    plan_events: Seq<PlanEvent>,
    plan: PlanModel,
    apply_events: Seq<ApplyEvent>,
    end: ApplyModel,
    recorded: StateModel,
    j: int,
)
    requires
        scope::identities_differ(scope.cards),
        scope.cards.len() <= usize::MAX,
        apply_laws::ids_are_plain(scope.cards),
        !options.dry_run,
        sync_laws::planned(sync::first_plan(scope), known, options, plan_events) == Some(plan),
        sync_laws::is_complete(plan),
        all_uploads_succeed(plan_events),
        keys_name_files(plan.images),
        apply_laws::applied(apply::first_apply(plan), known, options, apply_events) == Some(
            (end, recorded),
        ),
        card_laws::answers_requests(apply::first_apply(plan), known, options, apply_events),
        end.phase is Done,
        0 <= j < scope.cards.len(),
        !known.cards.contains_key(sync::scoped_key(scope.cards[j])),
    ensures
        card_laws::asks_addition(
            card_laws::requests(apply::first_apply(plan), known, options, apply_events),
            whole_card(plan, j, options.config),
        ),
{
    let asked = card_laws::requests(apply::first_apply(plan), known, options, apply_events);
    law_plan_shows_all_of_the_cards(scope, known, options, plan_events);
    card_laws::law_new_cards_are_added(
        scope,
        known,
        options,
        plan_events,
        plan,
        apply_events,
        end,
        recorded,
        j,
    );
    let card = choose|card: AddModel|
        {
            &&& plan.adds.contains(card)
            &&& sync_laws::is_pending(card, plan, options.config, j)
            &&& card.note.deck == plan.scope.cards[j].card.deck
            &&& #[trigger] card_laws::asks_addition(asked, card)
        };
    let x = choose|x: int| 0 <= x < plan.adds.len() && plan.adds[x] == card;
    assert(is_whole(plan.adds[x], plan, options.config));
    lemma_whole_card(card, plan, j, options.config);
}

/// In a run that succeeds, Anki is sent all of a tracked card whose note it no longer has: a note
/// is added anew with all sides of the card. This holds where no upload fails, and attachments
/// with the same key have the same file name.
pub proof fn law_missing_cards_are_sent_whole(
    scope: ScopeModel,
    known: StateModel,
    options: OptionsModel,
    plan_events: Seq<PlanEvent>,
    plan: PlanModel,
    apply_events: Seq<ApplyEvent>,
    end: ApplyModel,
    recorded: StateModel,
    j: int,
)
    requires
        scope::identities_differ(scope.cards),
        scope.cards.len() <= usize::MAX,
        apply_laws::ids_are_plain(scope.cards),
        !options.dry_run,
        sync_laws::planned(sync::first_plan(scope), known, options, plan_events) == Some(plan),
        sync_laws::is_complete(plan),
        all_uploads_succeed(plan_events),
        keys_name_files(plan.images),
        apply_laws::applied(apply::first_apply(plan), known, options, apply_events) == Some(
            (end, recorded),
        ),
        card_laws::answers_requests(apply::first_apply(plan), known, options, apply_events),
        end.phase is Done,
        0 <= j < scope.cards.len(),
        !card_laws::is_found(
            apply::first_apply(plan),
            known,
            options,
            apply_events,
            sync::scoped_key(scope.cards[j]),
        ),
    ensures
        card_laws::asks_addition(
            card_laws::requests(apply::first_apply(plan), known, options, apply_events),
            whole_card(plan, j, options.config),
        ),
{
    let asked = card_laws::requests(apply::first_apply(plan), known, options, apply_events);
    law_plan_shows_all_of_the_cards(scope, known, options, plan_events);
    card_laws::law_missing_notes_are_added_anew(
        scope,
        known,
        options,
        plan_events,
        plan,
        apply_events,
        end,
        recorded,
        j,
    );
    let x = choose|x: int|
        {
            &&& 0 <= x < plan.updates.len()
            &&& sync_laws::is_pending((#[trigger] plan.updates[x]).card, plan, options.config, j)
            &&& card_laws::asks_addition(asked, plan.updates[x].card)
        };
    assert(is_whole(plan.updates[x].card, plan, options.config));
    lemma_whole_card(plan.updates[x].card, plan, j, options.config);
}

} // verus!
