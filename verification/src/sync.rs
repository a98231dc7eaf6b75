//! A run: which cards are skipped, updated or added, and what the notes of the others hold.
//!
//! A `Plan` looks at one card after the other. What it needs from outside, the images of a note
//! or the upload of an image, it asks for; the answer is handed back to it.

use vstd::prelude::*;

use crate::anki::{AnkiNote, NoteModel};
use crate::card_note;
use crate::chars;
use crate::config::{Config, ConfigModel};
use crate::messages;
use crate::messages::{Line, LineModel};
use crate::parser::CardModel;
use crate::render;
use crate::render::{ImageModel, ImagePass, NoteImage, PassModel, Rendering};
use crate::scope;
use crate::scope::{Scope, ScopeModel, ScopedModel, SourceNote};
use crate::state;
use crate::state::{StateModel, SyncState};
use crate::text;
use crate::text_map;
use crate::text_map::TextMap;

verus! {

// ── Options and reports ──────────────────────────────────────────────────────

/// How many cards were added, updated, deleted and skipped.
#[derive(Debug, Clone, Copy, PartialEq, Eq, Structural)]
pub struct SyncReport {
    pub added: usize,
    pub updated: usize,
    pub deleted: usize,
    pub skipped: usize,
}

/// What a run is asked to do.
#[derive(Debug)]
pub struct SyncOptions<'a> {
    /// Only notes with this tag.
    pub tag_filter: Option<&'a str>,
    /// Only notes with these words in their title.
    pub note_filter: Option<&'a str>,
    /// Tell what would be done, and do nothing.
    pub dry_run: bool,
    /// Update cards that have not changed.
    pub force: bool,
    /// Tell what is done with each card.
    pub verbose: bool,
    /// Tell how far the run is.
    pub progress: bool,
    pub config: &'a Config,
}

/// What a `SyncOptions` says.
pub struct OptionsModel {
    pub tag_filter: Option<Seq<char>>,
    pub note_filter: Option<Seq<char>>,
    pub dry_run: bool,
    pub force: bool,
    pub verbose: bool,
    pub progress: bool,
    pub config: ConfigModel,
}

/// The text that an optional string slice holds.
pub open spec fn opt_str(slice: Option<&str>) -> Option<Seq<char>> {
    match slice {
        Some(s) => Some(s@),
        None => None,
    }
}

impl<'a> View for SyncOptions<'a> {
    type V = OptionsModel;

    open spec fn view(&self) -> OptionsModel {
        OptionsModel {
            tag_filter: opt_str(self.tag_filter),
            note_filter: opt_str(self.note_filter),
            dry_run: self.dry_run,
            force: self.force,
            verbose: self.verbose,
            progress: self.progress,
            config: self.config@,
        }
    }
}

// ── Decisions ────────────────────────────────────────────────────────────────

/// What is done with a card.
#[derive(Debug, Clone, Copy, PartialEq, Eq, Structural)]
pub enum Decision {
    /// It is in Anki as it is.
    Skip,
    /// It is in Anki, in this note, and has changed.
    Update(u64),
    /// It is not in Anki.
    Add,
}

/// What is done with a card, by its key and its digest.
pub open spec fn decision_on(
    known: StateModel,
    key: Seq<char>,
    hash: Seq<char>,
    force: bool,
) -> Decision {
    if !known.cards.contains_key(key) {
        Decision::Add
    } else if !force && known.hashes.contains_key(key) && known.hashes[key] == hash {
        Decision::Skip
    } else {
        Decision::Update(known.cards[key])
    }
}

/// Decides what is done with a card.
pub fn decide(known: &SyncState, note_id: &str, fp: &str, hash: &str, force: bool) -> (decision:
    Decision)
    ensures
        decision == decision_on(known@, state::key_of(note_id@, fp@), hash@, force),
{
    match known.get(note_id, fp) {
        None => Decision::Add,
        Some(anki_id) => {
            let same = match known.get_hash(note_id, fp) {
                Some(old_hash) => chars::same_text(old_hash, hash),
                None => false,
            };
            if !force && same {
                Decision::Skip
            } else {
                Decision::Update(anki_id)
            }
        },
    }
}

// ── Pending work ─────────────────────────────────────────────────────────────

/// A card that is to be added to Anki.
#[derive(Debug)]
pub struct PendingAdd {
    pub note_id: String,
    pub fp: String,
    pub hash: String,
    pub note: AnkiNote,
}

/// A card whose note in Anki is to be updated.
#[derive(Debug)]
pub struct PendingUpdate {
    pub anki_id: u64,
    pub card: PendingAdd,
}

/// What a `PendingAdd` says.
pub struct AddModel {
    pub note_id: Seq<char>,
    pub fp: Seq<char>,
    pub hash: Seq<char>,
    pub note: NoteModel,
}

/// What a `PendingUpdate` says.
pub struct UpdateModel {
    pub anki_id: u64,
    pub card: AddModel,
}

impl View for PendingAdd {
    type V = AddModel;

    open spec fn view(&self) -> AddModel {
        AddModel { note_id: self.note_id@, fp: self.fp@, hash: self.hash@, note: self.note@ }
    }
}

impl View for PendingUpdate {
    type V = UpdateModel;

    open spec fn view(&self) -> UpdateModel {
        UpdateModel { anki_id: self.anki_id, card: self.card@ }
    }
}

/// What a list of additions says.
pub open spec fn add_models(list: Seq<PendingAdd>) -> Seq<AddModel> {
    Seq::new(list.len(), |i: int| list[i]@)
}

/// What a list of updates says.
pub open spec fn update_models(list: Seq<PendingUpdate>) -> Seq<UpdateModel> {
    Seq::new(list.len(), |i: int| list[i]@)
}

impl Clone for PendingAdd {
    fn clone(&self) -> (copy: Self)
        ensures
            copy@ == self@,
    {
        PendingAdd {
            note_id: self.note_id.clone(),
            fp: self.fp.clone(),
            hash: self.hash.clone(),
            note: self.note.clone(),
        }
    }
}

// ── Plans ────────────────────────────────────────────────────────────────────

/// The note of the next card, half made.
#[derive(Debug)]
struct Draft {
    anki_id: Option<u64>,
    hash: String,
    tags: Vec<String>,
    html: Vec<String>,
    pass: ImagePass,
}

/// What a draft says: the note that it updates, the digest and the tags of the card, its texts
/// that are rendered, and the one whose images are being put in place.
pub struct DraftModel {
    pub anki_id: Option<u64>,
    pub hash: Seq<char>,
    pub tags: Seq<Seq<char>>,
    pub html: Seq<Seq<char>>,
    pub pass: PassModel,
}

impl View for Draft {
    type V = DraftModel;

    closed spec fn view(&self) -> DraftModel {
        DraftModel {
            anki_id: self.anki_id,
            hash: self.hash@,
            tags: text::texts(self.tags@),
            html: text::texts(self.html@),
            pass: self.pass@,
        }
    }
}

/// What is to be done in a run, so far.
#[derive(Debug)]
pub struct Plan {
    scope: Scope,
    next: usize,
    images: TextMap<Vec<NoteImage>>,
    uploaded: TextMap<String>,
    report: SyncReport,
    updates: Vec<PendingUpdate>,
    adds: Vec<PendingAdd>,
    draft: Option<Draft>,
}

/// What a `Plan` says.
pub struct PlanModel {
    pub scope: ScopeModel,
    /// The next card to look at.
    pub next: int,
    /// The images of each note, as far as they are known.
    pub images: Map<Seq<char>, Seq<ImageModel>>,
    /// The name in Anki of each attachment that has been uploaded.
    pub uploaded: Map<Seq<char>, Seq<char>>,
    pub report: SyncReport,
    pub updates: Seq<UpdateModel>,
    pub adds: Seq<AddModel>,
    pub draft: Option<DraftModel>,
}

/// A map of lists of images as a map of what they say.
pub open spec fn image_lists(map: Map<Seq<char>, Vec<NoteImage>>) -> Map<
    Seq<char>,
    Seq<ImageModel>,
> {
    Map::new(
        |key: Seq<char>| map.contains_key(key),
        |key: Seq<char>| render::image_models(map[key]@),
    )
}

impl View for Plan {
    type V = PlanModel;

    closed spec fn view(&self) -> PlanModel {
        PlanModel {
            scope: self.scope@,
            next: self.next as int,
            images: image_lists(self.images@),
            uploaded: text_map::text_values(self.uploaded@),
            report: self.report,
            updates: update_models(self.updates@),
            adds: add_models(self.adds@),
            draft: match self.draft {
                Some(draft) => Some(draft@),
                None => None,
            },
        }
    }
}

/// What a plan does next.
#[derive(Debug)]
pub enum PlanAction {
    /// It looks at the next card.
    Continue,
    /// It needs the images of a note.
    FetchImages(String),
    /// It needs an image uploaded.
    Upload(NoteImage),
    /// It is complete.
    Ready,
}

/// What a `PlanAction` says.
pub enum PlanActionModel {
    Continue,
    FetchImages(Seq<char>),
    Upload(ImageModel),
    Ready,
}

impl View for PlanAction {
    type V = PlanActionModel;

    open spec fn view(&self) -> PlanActionModel {
        match self {
            PlanAction::Continue => PlanActionModel::Continue,
            PlanAction::FetchImages(note_id) => PlanActionModel::FetchImages(note_id@),
            PlanAction::Upload(image) => PlanActionModel::Upload(image@),
            PlanAction::Ready => PlanActionModel::Ready,
        }
    }
}

/// What is told to the user, and what is done next.
#[derive(Debug)]
pub struct PlanStep {
    pub lines: Vec<Line>,
    pub action: PlanAction,
}

/// What a plan says before the first card.
pub open spec fn first_plan(scope: ScopeModel) -> PlanModel {
    PlanModel {
        scope,
        next: 0,
        images: Map::empty(),
        uploaded: Map::empty(),
        report: SyncReport { added: 0, updated: 0, deleted: 0, skipped: 0 },
        updates: Seq::empty(),
        adds: Seq::empty(),
        draft: None,
    }
}

/// The tags of a note. One that the scope does not know has none.
pub open spec fn bear_tags(scope: ScopeModel, note_id: Seq<char>) -> Seq<Seq<char>> {
    if scope.tags.contains_key(note_id) {
        scope.tags[note_id]
    } else {
        Seq::empty()
    }
}

/// The Anki tags of a card.
pub open spec fn tags_in(
    scope: ScopeModel,
    card: ScopedModel,
    config: ConfigModel,
) -> Seq<Seq<char>> {
    card_note::tags_of(card.card, bear_tags(scope, card.note_id), config)
}

/// The digest of a card, given the images of its note.
pub open spec fn hash_in(
    scope: ScopeModel,
    card: ScopedModel,
    images: Seq<ImageModel>,
    config: ConfigModel,
) -> Seq<char> {
    card_note::content_hash_of(
        card.card,
        tags_in(scope, card, config),
        card_note::images_of(card.card, images),
        card_note::context_label(card.card, config),
    )
}

/// The key of a card in the state.
pub open spec fn scoped_key(card: ScopedModel) -> Seq<char> {
    state::key_of(card.note_id, card.card.fingerprint)
}

/// The plan waits for the images of the note of the next card.
pub open spec fn awaits_images(plan: PlanModel) -> bool {
    &&& plan.draft is None
    &&& 0 <= plan.next < plan.scope.cards.len()
    &&& !plan.images.contains_key(plan.scope.cards[plan.next].note_id)
}

/// What is done with the next card, whose images are known.
pub open spec fn next_decision(
    plan: PlanModel,
    known: StateModel,
    options: OptionsModel,
) -> Decision {
    let card = plan.scope.cards[plan.next];
    decision_on(
        known,
        scoped_key(card),
        hash_in(plan.scope, card, plan.images[card.note_id], options.config),
        options.force,
    )
}

/// A draft of the note of the next card: none of its texts is rendered.
pub open spec fn first_draft(
    plan: PlanModel,
    anki_id: Option<u64>,
    config: ConfigModel,
) -> DraftModel {
    let card = plan.scope.cards[plan.next];
    DraftModel {
        anki_id,
        hash: hash_in(plan.scope, card, plan.images[card.note_id], config),
        tags: tags_in(plan.scope, card, config),
        html: Seq::empty(),
        pass: render::untouched(card_note::texts_of(card.card)[0]),
    }
}

/// The plan once it has decided on the next card, whose images are known.
pub open spec fn after_decision(
    plan: PlanModel,
    known: StateModel,
    options: OptionsModel,
) -> PlanModel {
    let report = plan.report;
    match next_decision(plan, known, options) {
        Decision::Skip => PlanModel {
            next: plan.next + 1,
            report: SyncReport { skipped: (report.skipped + 1) as usize, ..report },
            ..plan
        },
        Decision::Update(anki_id) => if options.dry_run {
            PlanModel {
                next: plan.next + 1,
                report: SyncReport { updated: (report.updated + 1) as usize, ..report },
                ..plan
            }
        } else {
            PlanModel { draft: Some(first_draft(plan, Some(anki_id), options.config)), ..plan }
        },
        Decision::Add => if options.dry_run {
            PlanModel {
                next: plan.next + 1,
                report: SyncReport { added: (report.added + 1) as usize, ..report },
                ..plan
            }
        } else {
            PlanModel { draft: Some(first_draft(plan, None, options.config)), ..plan }
        },
    }
}

/// What is told of the decision on the next card.
pub open spec fn decision_lines(
    plan: PlanModel,
    known: StateModel,
    options: OptionsModel,
) -> Seq<LineModel> {
    let card = plan.scope.cards[plan.next].card;
    let preview = card_note::preview_of(card);
    let number = (plan.next + 1) as nat;
    let total = plan.scope.cards.len();
    match next_decision(plan, known, options) {
        Decision::Skip => if options.verbose {
            seq![LineModel::Out(messages::skip_text(card.deck, preview))]
        } else {
            Seq::empty()
        },
        Decision::Update(anki_id) => if options.dry_run {
            seq![LineModel::Out(messages::would_update_text(anki_id as nat, card.deck))]
        } else if options.progress {
            seq![LineModel::Out(messages::prepare_update_text(number, total, card.deck, preview))]
        } else {
            Seq::empty()
        },
        Decision::Add => if options.dry_run {
            seq![LineModel::Out(messages::would_add_text(card.deck, card_note::kind_name(card)))]
        } else if options.progress {
            seq![LineModel::Out(messages::prepare_add_text(number, total, card.deck, preview))]
        } else {
            Seq::empty()
        },
    }
}

/// The plan once the note of the next card is made.
pub open spec fn after_note(
    plan: PlanModel,
    draft: DraftModel,
    html: Seq<Seq<char>>,
    config: ConfigModel,
) -> PlanModel {
    let card = plan.scope.cards[plan.next];
    let pending = AddModel {
        note_id: card.note_id,
        fp: card.card.fingerprint,
        hash: draft.hash,
        note: card_note::note_of(card.card, html, draft.tags, config),
    };
    let rest = PlanModel { next: plan.next + 1, draft: None, ..plan };
    match draft.anki_id {
        Some(anki_id) => PlanModel {
            updates: plan.updates.push(UpdateModel { anki_id, card: pending }),
            ..rest
        },
        None => PlanModel { adds: plan.adds.push(pending), ..rest },
    }
}

/// The plan once it has gone on with the draft: to the next image that must be uploaded, to the
/// next text of the card, or to the end of the note.
pub open spec fn after_rendering(
    plan: PlanModel,
    draft: DraftModel,
    config: ConfigModel,
) -> PlanModel {
    let card = plan.scope.cards[plan.next];
    let images = plan.images[card.note_id];
    let pass = render::placed(draft.pass, images, plan.uploaded);
    let html = draft.html.push(render::rendered(pass.text));
    let texts = card_note::texts_of(card.card);
    if pass.next < images.len() {
        PlanModel { draft: Some(DraftModel { pass, ..draft }), ..plan }
    } else if html.len() < texts.len() {
        PlanModel {
            draft: Some(
                DraftModel { html, pass: render::untouched(texts[html.len() as int]), ..draft },
            ),
            ..plan
        }
    } else {
        after_note(plan, draft, html, config)
    }
}

/// What is told once the note of a card is made.
pub open spec fn note_lines(
    card: CardModel,
    anki_id: Option<u64>,
    options: OptionsModel,
) -> Seq<LineModel> {
    let preview = card_note::preview_of(card);
    if !options.verbose || options.progress {
        Seq::empty()
    } else if anki_id is Some {
        seq![LineModel::Out(messages::update_text(card.deck, preview))]
    } else {
        seq![LineModel::Out(messages::add_text(card.deck, preview))]
    }
}

/// The plan after one step.
pub open spec fn after_step(
    plan: PlanModel,
    known: StateModel,
    options: OptionsModel,
) -> PlanModel {
    match plan.draft {
        Some(draft) => after_rendering(plan, draft, options.config),
        None => if plan.next >= plan.scope.cards.len() || awaits_images(plan) {
            plan
        } else {
            after_decision(plan, known, options)
        },
    }
}

/// What a step does.
pub open spec fn step_action(
    plan: PlanModel,
    known: StateModel,
    options: OptionsModel,
) -> PlanActionModel {
    match plan.draft {
        Some(draft) => {
            let images = plan.images[plan.scope.cards[plan.next].note_id];
            let pass = render::placed(draft.pass, images, plan.uploaded);
            if pass.next < images.len() {
                PlanActionModel::Upload(images[pass.next])
            } else {
                PlanActionModel::Continue
            }
        },
        None => if plan.next >= plan.scope.cards.len() {
            PlanActionModel::Ready
        } else if awaits_images(plan) {
            PlanActionModel::FetchImages(plan.scope.cards[plan.next].note_id)
        } else {
            PlanActionModel::Continue
        },
    }
}

/// What a step tells.
pub open spec fn step_lines(
    plan: PlanModel,
    known: StateModel,
    options: OptionsModel,
) -> Seq<LineModel> {
    match plan.draft {
        Some(draft) => if after_step(plan, known, options).draft is None {
            note_lines(plan.scope.cards[plan.next].card, draft.anki_id, options)
        } else {
            Seq::empty()
        },
        None => if plan.next >= plan.scope.cards.len() || awaits_images(plan) {
            Seq::empty()
        } else {
            decision_lines(plan, known, options)
        },
    }
}

/// The plan waits for the upload of an image, which has not been uploaded.
pub open spec fn awaits_upload(plan: PlanModel) -> bool {
    &&& 0 <= plan.next < plan.scope.cards.len()
    &&& plan.draft matches Some(draft) && render::awaits_upload(
        draft.pass,
        plan.images[plan.scope.cards[plan.next].note_id],
    )
    &&& !plan.uploaded.contains_key(awaited_image(plan).upload_key)
}

/// The image that a plan waits for.
pub open spec fn awaited_image(plan: PlanModel) -> ImageModel {
    plan.images[plan.scope.cards[plan.next].note_id][plan.draft->0.pass.next]
}

/// The plan once the image that it waits for is uploaded.
pub open spec fn with_upload(plan: PlanModel) -> PlanModel {
    let images = plan.images[plan.scope.cards[plan.next].note_id];
    let draft = plan.draft->0;
    PlanModel {
        uploaded: plan.uploaded.insert(
            awaited_image(plan).upload_key,
            render::anki_name(awaited_image(plan)),
        ),
        draft: Some(
            DraftModel { pass: render::after_upload(draft.pass, images), ..draft },
        ),
        ..plan
    }
}

/// The plan once it has given up on the image that it waits for.
pub open spec fn without_upload(plan: PlanModel) -> PlanModel {
    let draft = plan.draft->0;
    PlanModel {
        draft: Some(
            DraftModel {
                pass: PassModel { next: draft.pass.next + 1, ..draft.pass },
                ..draft
            },
        ),
        ..plan
    }
}

/// A plan is sound: each card before the next one is counted or pending, no two cards have the
/// same identity, and a draft has a text of the next card left, and is at one of the images of its
/// note or behind the last.
pub open spec fn is_sound(plan: PlanModel) -> bool {
    &&& 0 <= plan.next <= plan.scope.cards.len() <= usize::MAX
    &&& scope::identities_differ(plan.scope.cards)
    &&& plan.report.added + plan.report.updated + plan.report.skipped + plan.updates.len()
        + plan.adds.len() == plan.next
    &&& plan.report.deleted == 0
    &&& plan.draft matches Some(draft) ==> {
        &&& plan.next < plan.scope.cards.len()
        &&& plan.images.contains_key(plan.scope.cards[plan.next].note_id)
        &&& draft.html.len() < card_note::texts_of(plan.scope.cards[plan.next].card).len()
        &&& 0 <= draft.pass.next <= plan.images[plan.scope.cards[plan.next].note_id].len()
    }
}

/// Starts a run over some notes.
pub fn sync(notes: &Vec<SourceNote>) -> (plan: Plan)
    ensures
        plan@ == first_plan(scope::scope_of(notes@)),
        is_sound(plan@),
{
    let plan = Plan {
        scope: scope::collect_cards(notes),
        next: 0,
        images: TextMap::new(),
        uploaded: TextMap::new(),
        report: SyncReport { added: 0, updated: 0, deleted: 0, skipped: 0 },
        updates: Vec::new(),
        adds: Vec::new(),
        draft: None,
    };
    assert(plan.scope.cards.len() <= usize::MAX);
    assert(plan@.images =~= Map::<Seq<char>, Seq<ImageModel>>::empty());
    assert(plan@.uploaded =~= Map::<Seq<char>, Seq<char>>::empty());
    assert(plan@.updates =~= Seq::<UpdateModel>::empty());
    assert(plan@.adds =~= Seq::<AddModel>::empty());
    plan
}

impl Plan {
    /// Goes one step on: decides on the next card, or goes on with its note.
    pub fn step(&mut self, known: &SyncState, options: &SyncOptions<'_>) -> (step: PlanStep)
        requires
            is_sound(old(self)@),
        ensures
            final(self)@ == after_step(old(self)@, known@, options@),
            is_sound(final(self)@),
            step.action@ == step_action(old(self)@, known@, options@),
            messages::line_models(step.lines@) == step_lines(old(self)@, known@, options@),
            step.action is Upload ==> awaits_upload(final(self)@),
    {
        let mut draft: Option<Draft> = None;
        std::mem::swap(&mut draft, &mut self.draft);
        match draft {
            Some(draft) => self.go_on(draft, known, options),
            None => {
                if self.next >= self.scope.cards.len() {
                    return PlanStep { lines: no_lines(), action: PlanAction::Ready };
                }
                let note_id = self.scope.cards[self.next].note_id.clone();
                if !self.images.contains_key(note_id.as_str()) {
                    return PlanStep {
                        lines: no_lines(),
                        action: PlanAction::FetchImages(note_id),
                    };
                }
                let lines = self.look_at_card(known, options);
                PlanStep { lines, action: PlanAction::Continue }
            },
        }
    }

    /// Decides on the next card.
    fn look_at_card(&mut self, known: &SyncState, options: &SyncOptions<'_>) -> (lines: Vec<Line>)
        requires
            is_sound(old(self)@),
            old(self)@.draft is None,
            old(self)@.next < old(self)@.scope.cards.len(),
            !awaits_images(old(self)@),
        ensures
            final(self)@ == after_decision(old(self)@, known@, options@),
            is_sound(final(self)@),
            messages::line_models(lines@) == decision_lines(old(self)@, known@, options@),
    {
        let ghost before = self@;
        let total = self.scope.cards.len();
        let scoped = &self.scope.cards[self.next];
        let card = &scoped.card;
        assert(self@.scope.cards[self.next as int] == scoped@);
        let none: Vec<String> = Vec::new();
        let note_tags = match self.scope.tags.get(scoped.note_id.as_str()) {
            Some(tags) => tags.as_slice(),
            None => none.as_slice(),
        };
        assert(text::texts(note_tags@) =~= bear_tags(self@.scope, scoped@.note_id));
        let tags = card_note::build_tags(card, note_tags, options.config);
        let no_images: Vec<NoteImage> = Vec::new();
        let images = match self.images.get(scoped.note_id.as_str()) {
            Some(images) => images.as_slice(),
            None => no_images.as_slice(),
        };
        assert(render::image_models(images@) == self@.images[scoped@.note_id]);
        let refs = card_note::card_referenced_images(card, images);
        let context = card_note::card_context_label(card, options.config);
        let hash = match &context {
            Some(label) => card_note::content_hash(
                card,
                tags.as_slice(),
                refs.as_slice(),
                Some(label.as_str()),
            ),
            None => card_note::content_hash(card, tags.as_slice(), refs.as_slice(), None),
        };
        assert(hash@ == hash_in(
            before.scope,
            scoped@,
            before.images[scoped@.note_id],
            options@.config,
        ));
        let decision = decide(
            known,
            scoped.note_id.as_str(),
            card.fingerprint.as_str(),
            hash.as_str(),
            options.force,
        );
        assert(decision == next_decision(before, known@, options@));
        let deck = card.deck.as_str();
        let preview = card_note::card_preview(card);
        let number = self.next + 1;
        let (anki_id, lines): (Option<u64>, Vec<Line>) = match decision {
            Decision::Skip => {
                let lines = if options.verbose {
                    one_line(messages::skip_line(deck, preview.as_str()))
                } else {
                    no_lines()
                };
                self.report.skipped = self.report.skipped + 1;
                self.next = self.next + 1;
                return lines;
            },
            Decision::Update(anki_id) => {
                if options.dry_run {
                    let lines = one_line(messages::would_update_line(anki_id, deck));
                    self.report.updated = self.report.updated + 1;
                    self.next = self.next + 1;
                    return lines;
                }
                let lines = if options.progress {
                    one_line(
                        messages::prepare_update_line(number, total, deck, preview.as_str()),
                    )
                } else {
                    no_lines()
                };
                (Some(anki_id), lines)
            },
            Decision::Add => {
                if options.dry_run {
                    let kind = card_note::display_kind(card);
                    let lines = one_line(messages::would_add_line(deck, kind));
                    self.report.added = self.report.added + 1;
                    self.next = self.next + 1;
                    return lines;
                }
                let lines = if options.progress {
                    one_line(messages::prepare_add_line(number, total, deck, preview.as_str()))
                } else {
                    no_lines()
                };
                (None, lines)
            },
        };
        let texts = card_note::card_texts(card);
        assert(texts@.len() == text::texts(texts@).len());
        let draft = Draft {
            anki_id,
            hash,
            tags,
            html: Vec::new(),
            pass: ImagePass::new(texts[0].as_str()),
        };
        assert(text::texts(texts@)[0] == texts@[0]@);
        assert(draft@.html =~= Seq::<Seq<char>>::empty());
        self.draft = Some(draft);
        lines
    }

    /// Goes on with the note of the next card.
    fn go_on(&mut self, draft: Draft, known: &SyncState, options: &SyncOptions<'_>) -> (step:
        PlanStep)
        requires
            old(self)@.draft is None,
            is_sound((PlanModel { draft: Some(draft@), ..old(self)@ })),
        ensures
            ({
                let plan = PlanModel { draft: Some(draft@), ..old(self)@ };
                &&& final(self)@ == after_step(plan, known@, options@)
                &&& is_sound(final(self)@)
                &&& step.action@ == step_action(plan, known@, options@)
                &&& messages::line_models(step.lines@) == step_lines(plan, known@, options@)
                &&& step.action is Upload ==> awaits_upload(final(self)@)
            }),
    {
        let ghost plan = PlanModel { draft: Some(draft@), ..self@ };
        let ghost first = draft@;
        let mut draft = draft;
        let scoped = &self.scope.cards[self.next];
        let card = &scoped.card;
        assert(plan.scope.cards[plan.next] == scoped@);
        let no_images: Vec<NoteImage> = Vec::new();
        let images = match self.images.get(scoped.note_id.as_str()) {
            Some(images) => images.as_slice(),
            None => no_images.as_slice(),
        };
        assert(render::image_models(images@) == plan.images[scoped@.note_id]);
        match render::render_for_anki(&mut draft.pass, images, &self.uploaded) {
            Rendering::Upload(i) => {
                let image = images[i].clone();
                self.draft = Some(draft);
                PlanStep { lines: no_lines(), action: PlanAction::Upload(image) }
            },
            Rendering::Html(html) => {
                let ghost text = html@;
                let ghost html_before = draft.html@;
                draft.html.push(html);
                assert(text::texts(draft.html@) == text::texts(html_before).push(text));
                let texts = card_note::card_texts(card);
                assert(texts@.len() == text::texts(texts@).len());
                if draft.html.len() < texts.len() {
                    assert(text::texts(texts@)[draft.html@.len() as int]
                        == texts@[draft.html@.len() as int]@);
                    draft.pass = ImagePass::new(texts[draft.html.len()].as_str());
                    self.draft = Some(draft);
                    return PlanStep { lines: no_lines(), action: PlanAction::Continue };
                }
                let note = card_note::build_anki_note(
                    card,
                    &draft.html,
                    draft.tags,
                    options.config,
                );
                let preview = card_note::card_preview(card);
                let lines = if options.verbose && !options.progress {
                    one_line(
                        if draft.anki_id.is_some() {
                            messages::update_line(card.deck.as_str(), preview.as_str())
                        } else {
                            messages::add_line(card.deck.as_str(), preview.as_str())
                        },
                    )
                } else {
                    no_lines()
                };
                let pending = PendingAdd {
                    note_id: scoped.note_id.clone(),
                    fp: card.fingerprint.clone(),
                    hash: draft.hash,
                    note,
                };
                let ghost model = pending@;
                let ghost updates_before = self.updates@;
                let ghost adds_before = self.adds@;
                match draft.anki_id {
                    Some(anki_id) => {
                        self.updates.push(PendingUpdate { anki_id, card: pending });
                        assert(update_models(self.updates@) == update_models(updates_before).push(
                            UpdateModel { anki_id, card: model },
                        ));
                    },
                    None => {
                        self.adds.push(pending);
                        assert(add_models(self.adds@) == add_models(adds_before).push(model));
                    },
                }
                assert(self.next < self.scope.cards.len());
                self.next = self.next + 1;
                PlanStep { lines, action: PlanAction::Continue }
            },
        }
    }

    /// How many cards the run is about.
    pub fn card_count(&self) -> (count: usize)
        ensures
            count == self@.scope.cards.len(),
    {
        assert(self@.scope.cards.len() == self.scope.cards@.len());
        self.scope.cards.len()
    }

    /// What the plan is about and what it has come to.
    pub fn into_parts(self) -> (parts: (Scope, SyncReport, Vec<PendingUpdate>, Vec<PendingAdd>))
        ensures
            parts.0@ == self@.scope,
            parts.1 == self@.report,
            update_models(parts.2@) == self@.updates,
            add_models(parts.3@) == self@.adds,
    {
        (self.scope, self.report, self.updates, self.adds)
    }

    /// Takes the images of a note. Those that a note already has stay.
    pub fn images_fetched(&mut self, note_id: String, images: Vec<NoteImage>)
        requires
            is_sound(old(self)@),
        ensures
            final(self)@ == (PlanModel {
                images: if old(self)@.images.contains_key(note_id@) {
                    old(self)@.images
                } else {
                    old(self)@.images.insert(note_id@, render::image_models(images@))
                },
                ..old(self)@
            }),
            is_sound(final(self)@),
    {
        if !self.images.contains_key(note_id.as_str()) {
            let ghost before = self.images@;
            let ghost key = note_id@;
            let ghost list = images;
            self.images.insert(note_id, images);
            assert(image_lists(self.images@) =~= image_lists(before).insert(
                key,
                render::image_models(list@),
            ));
        }
    }

    /// The image that the plan waits for has been uploaded.
    pub fn image_uploaded(&mut self)
        requires
            is_sound(old(self)@),
            awaits_upload(old(self)@),
        ensures
            final(self)@ == with_upload(old(self)@),
            is_sound(final(self)@),
    {
        let ghost before = self@;
        let mut draft: Option<Draft> = None;
        std::mem::swap(&mut draft, &mut self.draft);
        if let Some(mut draft) = draft {
            let scoped = &self.scope.cards[self.next];
            assert(before.scope.cards[before.next] == scoped@);
            if let Some(images) = self.images.get(scoped.note_id.as_str()) {
                assert(render::image_models(images@) == before.images[scoped@.note_id]);
                assert(before.images[scoped@.note_id][draft@.pass.next]
                    == images@[draft@.pass.next]@);
                draft.pass.image_uploaded(images.as_slice(), &mut self.uploaded);
                self.draft = Some(draft);
            }
        }
    }

    /// The image that the plan waits for could not be uploaded. Gives the warning.
    pub fn image_failed(&mut self, reason: &str) -> (warning: String)
        requires
            is_sound(old(self)@),
            awaits_upload(old(self)@),
        ensures
            final(self)@ == without_upload(old(self)@),
            is_sound(final(self)@),
            warning@ == messages::upload_failed_text(
                awaited_image(old(self)@).filename,
                reason@,
            ),
    {
        let ghost before = self@;
        let mut draft: Option<Draft> = None;
        std::mem::swap(&mut draft, &mut self.draft);
        let mut warning = String::new();
        if let Some(mut draft) = draft {
            let scoped = &self.scope.cards[self.next];
            assert(before.scope.cards[before.next] == scoped@);
            if let Some(images) = self.images.get(scoped.note_id.as_str()) {
                assert(render::image_models(images@) == before.images[scoped@.note_id]);
                let position = draft.pass.position();
                assert(before.images[scoped@.note_id][position as int] == images@[position as int]@);
                warning =
                messages::upload_failed_line(images[position].filename.as_str(), reason);
                assert(position < images.len());
                draft.pass.image_failed();
                self.draft = Some(draft);
            }
        }
        warning
    }
}

/// Nothing to tell.
pub(crate) fn no_lines() -> (lines: Vec<Line>)
    ensures
        messages::line_models(lines@) == Seq::<LineModel>::empty(),
{
    let lines: Vec<Line> = Vec::new();
    assert(messages::line_models(lines@) == Seq::<LineModel>::empty());
    lines
}

/// One line to tell.
pub(crate) fn one_line(line: String) -> (lines: Vec<Line>)
    ensures
        messages::line_models(lines@) == seq![LineModel::Out(line@)],
{
    let mut lines: Vec<Line> = Vec::new();
    let ghost text = line@;
    lines.push(Line::Out(line));
    assert(messages::line_models(lines@) == seq![LineModel::Out(text)]);
    lines
}

} // verus!
