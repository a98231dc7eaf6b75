//! A run, continued: the changes are made in Anki, batch by batch, and what has been done is
//! recorded.
//!
//! An `Apply` says what is to be done next. To ask it for the next step is to say that the last
//! one went well; the two requests whose replies matter have a method each that takes the reply.

use vstd::prelude::*;
use vstd::slice::slice_subrange;

use crate::anki;
use crate::anki::{AnkiNote, NoteModel};
use crate::card_note;
use crate::chars;
use crate::messages;
use crate::messages::{Line, LineModel};
use crate::scope;
use crate::scope::{Scope, ScopeModel};
use crate::state;
use crate::state::{KnownCard, StateModel, SyncState};
use crate::sync;
use crate::sync::{
    AddModel, OptionsModel, PendingAdd, PendingUpdate, Plan, PlanModel, SyncOptions, SyncReport,
    UpdateModel,
};
use crate::text;

verus! {

/// How many notes go into one request.
pub const ANKI_BATCH_SIZE: usize = 50;

// ── Batches ──────────────────────────────────────────────────────────────────

/// Where the batch that starts at `from` ends.
pub open spec fn batch_end(from: int, len: nat) -> int {
    if from + ANKI_BATCH_SIZE < len {
        from + ANKI_BATCH_SIZE
    } else {
        len as int
    }
}

/// The batch that starts at `from`.
pub open spec fn batch<A>(list: Seq<A>, from: int) -> Seq<A> {
    list.subrange(from, batch_end(from, list.len()))
}

/// Where the batch that starts at `from` ends.
fn end_of_batch(from: usize, len: usize) -> (end: usize)
    requires
        from <= len,
    ensures
        end == batch_end(from as int, len as nat),
        from <= end <= len,
        from < len ==> from < end,
{
    if len - from > ANKI_BATCH_SIZE {
        from + ANKI_BATCH_SIZE
    } else {
        len
    }
}

/// Those of a batch whose note was found, or those whose note was not.
pub open spec fn chosen(list: Seq<UpdateModel>, found: Seq<bool>, wanted: bool) -> Seq<UpdateModel>
    decreases found.len(),
{
    if found.len() == 0 {
        Seq::empty()
    } else {
        let front = chosen(list, found.drop_last(), wanted);
        if found.last() == wanted {
            front.push(list[found.len() - 1])
        } else {
            front
        }
    }
}

/// The updates that a request carries.
pub open spec fn update_requests(list: Seq<UpdateModel>) -> Seq<(u64, NoteModel)> {
    list.map_values(|update: UpdateModel| (update.anki_id, update.card.note))
}

/// The decks that the notes of some updates belong in.
pub open spec fn moves_of(list: Seq<UpdateModel>) -> Seq<(u64, Seq<char>)> {
    list.map_values(|update: UpdateModel| (update.anki_id, update.card.note.deck))
}

/// The cards of some updates.
pub open spec fn cards_of(list: Seq<UpdateModel>) -> Seq<AddModel> {
    list.map_values(|update: UpdateModel| update.card)
}

/// The notes of some additions.
pub open spec fn notes_of(list: Seq<AddModel>) -> Seq<NoteModel> {
    list.map_values(|card: AddModel| card.note)
}

// ── What is recorded ─────────────────────────────────────────────────────────

/// The key of a card in the state.
pub open spec fn pending_key(card: AddModel) -> Seq<char> {
    state::key_of(card.note_id, card.fp)
}

/// The state with the digests of some cards.
pub open spec fn with_hashes(known: StateModel, list: Seq<AddModel>) -> StateModel
    decreases list.len(),
{
    if list.len() == 0 {
        known
    } else {
        let front = with_hashes(known, list.drop_last());
        StateModel {
            hashes: front.hashes.insert(pending_key(list.last()), list.last().hash),
            ..front
        }
    }
}

/// The state with the first `count` of some cards: their notes in Anki and their digests.
pub open spec fn with_notes(
    known: StateModel,
    list: Seq<AddModel>,
    ids: Seq<u64>,
    count: nat,
) -> StateModel
    decreases count,
{
    if count == 0 {
        known
    } else {
        let front = with_notes(known, list, ids, (count - 1) as nat);
        let card = list[count - 1];
        StateModel {
            cards: front.cards.insert(pending_key(card), ids[count - 1]),
            hashes: front.hashes.insert(pending_key(card), card.hash),
        }
    }
}

/// As many as two lists have in common.
pub open spec fn shorter(a: nat, b: nat) -> nat {
    if a < b {
        a
    } else {
        b
    }
}

/// The state without some cards.
pub open spec fn without(known: StateModel, list: Seq<KnownCard>) -> StateModel
    decreases list.len(),
{
    if list.len() == 0 {
        known
    } else {
        let front = without(known, list.drop_last());
        let key = state::key_of(list.last().note_id, list.last().fp);
        StateModel { cards: front.cards.remove(key), hashes: front.hashes.remove(key) }
    }
}

/// The tracked card is to be deleted: it is not among the cards of the run. A run that looks at
/// some notes only leaves the cards of the others.
pub open spec fn is_stale(scope: ScopeModel, options: OptionsModel) -> spec_fn(KnownCard) -> bool {
    |card: KnownCard|
        {
            &&& options.tag_filter is Some || options.note_filter is Some
                ==> scope.tags.contains_key(card.note_id)
            &&& !scope::in_scope(scope.cards, (card.note_id, card.fp))
        }
}

// ── Replies ──────────────────────────────────────────────────────────────────

/// The message says that a note is missing in Anki.
pub open spec fn says_not_found(message: Seq<char>) -> bool {
    let lower = text::lowercase(message);
    text::contains(lower, "not found"@) || text::contains(lower, "no note with id"@)
}

/// Tells whether a message says that a note is missing in Anki.
pub fn is_note_not_found_message(message: &str) -> (missing: bool)
    ensures
        missing == says_not_found(message@),
{
    let lower = chars::to_lowercase(message);
    chars::contains(lower.as_str(), "not found") || chars::contains(
        lower.as_str(),
        "no note with id",
    )
}

/// The reply says that an update failed, and not for want of the note.
pub open spec fn is_failure(outcome: Option<Seq<char>>) -> bool {
    outcome matches Some(error) && !says_not_found(error)
}

/// The first failure among the outcomes of some updates.
pub open spec fn first_failure(outcomes: Seq<Option<Seq<char>>>) -> Option<int>
    decreases outcomes.len(),
{
    if outcomes.len() == 0 {
        None
    } else {
        match first_failure(outcomes.drop_last()) {
            Some(i) => Some(i),
            None => if is_failure(outcomes.last()) {
                Some(outcomes.len() - 1)
            } else {
                None
            },
        }
    }
}

/// Whose note was found.
pub open spec fn found_in(outcomes: Seq<Option<Seq<char>>>) -> Seq<bool> {
    outcomes.map_values(|outcome: Option<Seq<char>>| outcome is None)
}

/// The warnings about notes that were not found.
pub open spec fn missing_lines(
    list: Seq<UpdateModel>,
    outcomes: Seq<Option<Seq<char>>>,
) -> Seq<LineModel>
    decreases outcomes.len(),
{
    if outcomes.len() == 0 {
        Seq::empty()
    } else {
        let front = missing_lines(list, outcomes.drop_last());
        if outcomes.last() is Some {
            front.push(
                LineModel::Warning(
                    messages::readding_text(list[outcomes.len() - 1].anki_id as nat),
                ),
            )
        } else {
            front
        }
    }
}

// ── Phases ───────────────────────────────────────────────────────────────────

/// How far the changes are. The numbers are positions among the updates or the additions; the
/// truth values tell whose note was found in Anki.
#[derive(Debug)]
enum Phase {
    UpdateDecks(usize),
    Updating(usize),
    Moving(usize, Vec<bool>),
    Moved(usize, Vec<bool>),
    Readding(usize, Vec<bool>),
    Readded(usize),
    Updated(usize),
    UpdateSaved(usize),
    AddDecks(usize),
    Adding(usize),
    Added(usize),
    AddSaved(usize),
    Clearing,
    Deleted(Vec<(String, String, u64)>),
    Finishing,
    Done,
}

/// What a phase says.
pub enum PhaseModel {
    /// The decks of the updates from here on are not yet made sure of.
    UpdateDecks(int),
    /// The batch of updates from here on is to be made.
    Updating(int),
    /// The batch of updates is made; the notes that were found go to their decks.
    Moving(int, Seq<bool>),
    /// They are there; their digests are to be recorded.
    Moved(int, Seq<bool>),
    /// The notes that were not found are to be added.
    Readding(int, Seq<bool>),
    /// They are added; the state is to be saved.
    Readded(int),
    /// The batch of updates is complete; the state is to be saved.
    Updated(int),
    /// It is saved.
    UpdateSaved(int),
    /// The decks of the additions from here on are not yet made sure of.
    AddDecks(int),
    /// The batch of additions from here on is to be made.
    Adding(int),
    /// It is made; the state is to be saved.
    Added(int),
    /// It is saved.
    AddSaved(int),
    /// Cards that are no longer there are to be deleted.
    Clearing,
    /// They are deleted; the state is to be saved without them.
    Deleted(Seq<KnownCard>),
    /// The state is to be saved for the last time.
    Finishing,
    Done,
}

impl View for Phase {
    type V = PhaseModel;

    closed spec fn view(&self) -> PhaseModel {
        match self {
            Phase::UpdateDecks(i) => PhaseModel::UpdateDecks(*i as int),
            Phase::Updating(from) => PhaseModel::Updating(*from as int),
            Phase::Moving(from, found) => PhaseModel::Moving(*from as int, found@),
            Phase::Moved(from, found) => PhaseModel::Moved(*from as int, found@),
            Phase::Readding(from, found) => PhaseModel::Readding(*from as int, found@),
            Phase::Readded(from) => PhaseModel::Readded(*from as int),
            Phase::Updated(from) => PhaseModel::Updated(*from as int),
            Phase::UpdateSaved(from) => PhaseModel::UpdateSaved(*from as int),
            Phase::AddDecks(i) => PhaseModel::AddDecks(*i as int),
            Phase::Adding(from) => PhaseModel::Adding(*from as int),
            Phase::Added(from) => PhaseModel::Added(*from as int),
            Phase::AddSaved(from) => PhaseModel::AddSaved(*from as int),
            Phase::Clearing => PhaseModel::Clearing,
            Phase::Deleted(stale) => PhaseModel::Deleted(state::known_models(stale@)),
            Phase::Finishing => PhaseModel::Finishing,
            Phase::Done => PhaseModel::Done,
        }
    }
}

/// The changes of a run, as far as they are made.
#[derive(Debug)]
pub struct Apply {
    scope: Scope,
    report: SyncReport,
    updates: Vec<PendingUpdate>,
    adds: Vec<PendingAdd>,
    decks: Vec<String>,
    phase: Phase,
}

/// What an `Apply` says.
pub struct ApplyModel {
    pub scope: ScopeModel,
    pub report: SyncReport,
    pub updates: Seq<UpdateModel>,
    pub adds: Seq<AddModel>,
    /// The decks that have been made sure of.
    pub decks: Seq<Seq<char>>,
    pub phase: PhaseModel,
}

impl View for Apply {
    type V = ApplyModel;

    closed spec fn view(&self) -> ApplyModel {
        ApplyModel {
            scope: self.scope@,
            report: self.report,
            updates: sync::update_models(self.updates@),
            adds: sync::add_models(self.adds@),
            decks: text::texts(self.decks@),
            phase: self.phase@,
        }
    }
}

/// What is to be done.
#[derive(Debug)]
pub enum ApplyAction {
    Continue,
    CreateDeck(String),
    UpdateNotes(Vec<(u64, AnkiNote)>),
    MoveNotes(Vec<(u64, String)>),
    AddNotes(Vec<AnkiNote>),
    DeleteNotes(Vec<u64>),
    /// The state is to be saved.
    Save,
    Done(SyncReport),
}

/// What an `ApplyAction` says.
pub enum ApplyActionModel {
    Continue,
    CreateDeck(Seq<char>),
    UpdateNotes(Seq<(u64, NoteModel)>),
    MoveNotes(Seq<(u64, Seq<char>)>),
    AddNotes(Seq<NoteModel>),
    DeleteNotes(Seq<u64>),
    Save,
    Done(SyncReport),
}

/// What a list of notes and their numbers says.
pub open spec fn numbered_models(list: Seq<(u64, AnkiNote)>) -> Seq<(u64, NoteModel)> {
    Seq::new(list.len(), |i: int| (list[i].0, list[i].1@))
}

impl View for ApplyAction {
    type V = ApplyActionModel;

    open spec fn view(&self) -> ApplyActionModel {
        match self {
            ApplyAction::Continue => ApplyActionModel::Continue,
            ApplyAction::CreateDeck(deck) => ApplyActionModel::CreateDeck(deck@),
            ApplyAction::UpdateNotes(list) => ApplyActionModel::UpdateNotes(
                numbered_models(list@),
            ),
            ApplyAction::MoveNotes(list) => ApplyActionModel::MoveNotes(anki::move_models(list@)),
            ApplyAction::AddNotes(list) => ApplyActionModel::AddNotes(
                anki::note_models(list@),
            ),
            ApplyAction::DeleteNotes(list) => ApplyActionModel::DeleteNotes(list@),
            ApplyAction::Save => ApplyActionModel::Save,
            ApplyAction::Done(report) => ApplyActionModel::Done(*report),
        }
    }
}

/// What is told to the user, and what is to be done after that.
#[derive(Debug)]
pub struct ApplyStep {
    pub lines: Vec<Line>,
    pub action: ApplyAction,
}

// ── Steps ────────────────────────────────────────────────────────────────────

/// What a step comes to: how far the changes are, what is recorded, what is to be done and what
/// is told.
pub struct Outcome {
    pub apply: ApplyModel,
    pub known: StateModel,
    pub action: ApplyActionModel,
    pub lines: Seq<LineModel>,
}

/// A step that records and tells nothing.
pub open spec fn quiet(
    apply: ApplyModel,
    known: StateModel,
    phase: PhaseModel,
    action: ApplyActionModel,
) -> Outcome {
    Outcome { apply: ApplyModel { phase, ..apply }, known, action, lines: Seq::empty() }
}

/// One line where the progress is told.
pub open spec fn progress_line(options: OptionsModel, line: Seq<char>) -> Seq<LineModel> {
    if options.progress {
        seq![LineModel::Out(line)]
    } else {
        Seq::empty()
    }
}

/// Makes sure of a deck. It is created if that has not been done in this run.
pub open spec fn deck_step(
    apply: ApplyModel,
    known: StateModel,
    deck: Seq<char>,
    phase: PhaseModel,
) -> Outcome {
    if apply.decks.contains(deck) {
        quiet(apply, known, phase, ApplyActionModel::Continue)
    } else {
        quiet(
            ApplyModel { decks: apply.decks.push(deck), ..apply },
            known,
            phase,
            ApplyActionModel::CreateDeck(deck),
        )
    }
}

/// A step of the updates.
pub open spec fn update_step(
    apply: ApplyModel,
    known: StateModel,
    options: OptionsModel,
) -> Outcome {
    let total = apply.updates.len();
    match apply.phase {
        PhaseModel::UpdateDecks(i) => if i < total {
            deck_step(
                apply,
                known,
                apply.updates[i].card.note.deck,
                PhaseModel::UpdateDecks(i + 1),
            )
        } else {
            Outcome {
                lines: if total == 0 {
                    Seq::empty()
                } else {
                    progress_line(
                        options,
                        messages::updating_text(total, ANKI_BATCH_SIZE as nat),
                    )
                },
                ..quiet(apply, known, PhaseModel::Updating(0), ApplyActionModel::Continue)
            }
        },
        PhaseModel::Updating(from) => if from < total {
            quiet(
                apply,
                known,
                apply.phase,
                ApplyActionModel::UpdateNotes(update_requests(batch(apply.updates, from))),
            )
        } else {
            quiet(apply, known, PhaseModel::AddDecks(0), ApplyActionModel::Continue)
        },
        PhaseModel::Moving(from, found) => {
            let kept = chosen(batch(apply.updates, from), found, true);
            quiet(
                apply,
                known,
                PhaseModel::Moved(from, found),
                if kept.len() == 0 {
                    ApplyActionModel::Continue
                } else {
                    ApplyActionModel::MoveNotes(moves_of(kept))
                },
            )
        },
        PhaseModel::Moved(from, found) => {
            let kept = chosen(batch(apply.updates, from), found, true);
            let lost = chosen(batch(apply.updates, from), found, false);
            quiet(
                apply,
                with_hashes(known, cards_of(kept)),
                if lost.len() == 0 {
                    PhaseModel::Updated(from)
                } else {
                    PhaseModel::Readding(from, found)
                },
                ApplyActionModel::Continue,
            )
        },
        PhaseModel::Readding(from, found) => {
            let lost = chosen(batch(apply.updates, from), found, false);
            quiet(
                apply,
                known,
                apply.phase,
                ApplyActionModel::AddNotes(notes_of(cards_of(lost))),
            )
        },
        PhaseModel::Readded(from) => quiet(
            apply,
            known,
            PhaseModel::Updated(from),
            ApplyActionModel::Save,
        ),
        PhaseModel::Updated(from) => quiet(
            apply,
            known,
            PhaseModel::UpdateSaved(from),
            ApplyActionModel::Save,
        ),
        PhaseModel::UpdateSaved(from) => {
            let end = batch_end(from, total);
            let report = SyncReport {
                updated: (apply.report.updated + end - from) as usize,
                ..apply.report
            };
            Outcome {
                lines: progress_line(options, messages::updated_text(end as nat, total)),
                ..quiet(
                    ApplyModel { report, ..apply },
                    known,
                    PhaseModel::Updating(end),
                    ApplyActionModel::Continue,
                )
            }
        },
        _ => quiet(apply, known, apply.phase, ApplyActionModel::Continue),
    }
}

/// A step of the additions.
pub open spec fn add_step(apply: ApplyModel, known: StateModel, options: OptionsModel) -> Outcome {
    let total = apply.adds.len();
    match apply.phase {
        PhaseModel::AddDecks(i) => if i < total {
            deck_step(apply, known, apply.adds[i].note.deck, PhaseModel::AddDecks(i + 1))
        } else {
            Outcome {
                lines: if total == 0 {
                    Seq::empty()
                } else {
                    progress_line(
                        options,
                        messages::adding_text(total, ANKI_BATCH_SIZE as nat),
                    )
                },
                ..quiet(apply, known, PhaseModel::Adding(0), ApplyActionModel::Continue)
            }
        },
        PhaseModel::Adding(from) => if from < total {
            quiet(
                apply,
                known,
                apply.phase,
                ApplyActionModel::AddNotes(notes_of(batch(apply.adds, from))),
            )
        } else {
            quiet(apply, known, PhaseModel::Clearing, ApplyActionModel::Continue)
        },
        PhaseModel::Added(from) => quiet(
            apply,
            known,
            PhaseModel::AddSaved(from),
            ApplyActionModel::Save,
        ),
        PhaseModel::AddSaved(from) => {
            let end = batch_end(from, total);
            let report = SyncReport {
                added: (apply.report.added + end - from) as usize,
                ..apply.report
            };
            Outcome {
                lines: progress_line(options, messages::added_text(end as nat, total)),
                ..quiet(
                    ApplyModel { report, ..apply },
                    known,
                    PhaseModel::Adding(end),
                    ApplyActionModel::Continue,
                )
            }
        },
        _ => quiet(apply, known, apply.phase, ApplyActionModel::Continue),
    }
}

/// A step of the end of a run: the deletion of cards that are no longer there, and the last save.
/// `listed` are the tracked cards in their order.
pub open spec fn end_step(
    apply: ApplyModel,
    known: StateModel,
    listed: Seq<KnownCard>,
    options: OptionsModel,
) -> Outcome {
    match apply.phase {
        PhaseModel::Clearing => {
            let stale = listed.filter(is_stale(apply.scope, options));
            let report = SyncReport { deleted: stale.len() as usize, ..apply.report };
            if stale.len() == 0 {
                quiet(apply, known, PhaseModel::Finishing, ApplyActionModel::Continue)
            } else if options.dry_run {
                Outcome {
                    lines: seq![LineModel::Out(messages::would_delete_text(stale.len()))],
                    ..quiet(
                        ApplyModel { report, ..apply },
                        known,
                        PhaseModel::Finishing,
                        ApplyActionModel::Continue,
                    )
                }
            } else {
                Outcome {
                    lines: progress_line(options, messages::deleting_text(stale.len())),
                    ..quiet(
                        apply,
                        known,
                        PhaseModel::Deleted(stale),
                        ApplyActionModel::DeleteNotes(
                            stale.map_values(|card: KnownCard| card.anki_id),
                        ),
                    )
                }
            }
        },
        PhaseModel::Deleted(stale) => {
            let report = SyncReport { deleted: stale.len() as usize, ..apply.report };
            quiet(
                ApplyModel { report, ..apply },
                without(known, stale),
                PhaseModel::Finishing,
                ApplyActionModel::Save,
            )
        },
        PhaseModel::Finishing => quiet(
            apply,
            known,
            PhaseModel::Done,
            if options.dry_run {
                ApplyActionModel::Continue
            } else {
                ApplyActionModel::Save
            },
        ),
        _ => quiet(apply, known, PhaseModel::Done, ApplyActionModel::Done(apply.report)),
    }
}

/// What the next step comes to. `listed` are the tracked cards in their order.
pub open spec fn apply_step(
    apply: ApplyModel,
    known: StateModel,
    listed: Seq<KnownCard>,
    options: OptionsModel,
) -> Outcome {
    match apply.phase {
        PhaseModel::Clearing
        | PhaseModel::Deleted(_)
        | PhaseModel::Finishing
        | PhaseModel::Done => end_step(apply, known, listed, options),
        PhaseModel::AddDecks(_)
        | PhaseModel::Adding(_)
        | PhaseModel::Added(_)
        | PhaseModel::AddSaved(_) => add_step(apply, known, options),
        _ => update_step(apply, known, options),
    }
}

/// A reply about a batch of updates is awaited.
pub open spec fn awaits_outcomes(apply: ApplyModel) -> bool {
    apply.phase matches PhaseModel::Updating(from) && from < apply.updates.len()
}

/// A reply about notes that were added is awaited.
pub open spec fn awaits_ids(apply: ApplyModel) -> bool {
    match apply.phase {
        PhaseModel::Adding(from) => from < apply.adds.len(),
        PhaseModel::Readding(_, _) => true,
        _ => false,
    }
}

/// The cards whose notes are being added.
pub open spec fn being_added(apply: ApplyModel) -> Seq<AddModel> {
    match apply.phase {
        PhaseModel::Adding(from) => batch(apply.adds, from),
        PhaseModel::Readding(from, found) => cards_of(
            chosen(batch(apply.updates, from), found, false),
        ),
        _ => Seq::empty(),
    }
}

/// How far the changes are once notes have been added.
pub open spec fn after_ids(apply: ApplyModel) -> ApplyModel {
    match apply.phase {
        PhaseModel::Adding(from) => ApplyModel { phase: PhaseModel::Added(from), ..apply },
        PhaseModel::Readding(from, _) => ApplyModel { phase: PhaseModel::Readded(from), ..apply },
        _ => apply,
    }
}

/// How many updates are not yet counted.
pub open spec fn updates_left(apply: ApplyModel) -> int {
    match apply.phase {
        PhaseModel::UpdateDecks(_) => apply.updates.len() as int,
        PhaseModel::Updating(from)
        | PhaseModel::Moving(from, _)
        | PhaseModel::Moved(from, _)
        | PhaseModel::Readding(from, _)
        | PhaseModel::Readded(from)
        | PhaseModel::Updated(from)
        | PhaseModel::UpdateSaved(from) => apply.updates.len() - from,
        _ => 0,
    }
}

/// How many additions are not yet counted.
pub open spec fn adds_left(apply: ApplyModel) -> int {
    match apply.phase {
        PhaseModel::Adding(from)
        | PhaseModel::Added(from)
        | PhaseModel::AddSaved(from) => apply.adds.len() - from,
        PhaseModel::Clearing
        | PhaseModel::Deleted(_)
        | PhaseModel::Finishing
        | PhaseModel::Done => 0,
        _ => apply.adds.len() as int,
    }
}

/// The positions are those of updates and additions.
pub open spec fn in_range(apply: ApplyModel) -> bool {
    match apply.phase {
        PhaseModel::UpdateDecks(i) => 0 <= i <= apply.updates.len(),
        PhaseModel::Updating(from) => 0 <= from <= apply.updates.len(),
        PhaseModel::Moving(from, found)
        | PhaseModel::Moved(from, found)
        | PhaseModel::Readding(from, found) => 0 <= from < apply.updates.len() && found.len()
            <= batch(apply.updates, from).len(),
        PhaseModel::Readded(from)
        | PhaseModel::Updated(from)
        | PhaseModel::UpdateSaved(from) => 0 <= from < apply.updates.len(),
        PhaseModel::AddDecks(i) => 0 <= i <= apply.adds.len(),
        PhaseModel::Adding(from) => 0 <= from <= apply.adds.len(),
        PhaseModel::Added(from) | PhaseModel::AddSaved(from) => 0 <= from < apply.adds.len(),
        _ => true,
    }
}

/// The changes are sound: each card of the run is counted once, or will be.
pub open spec fn is_sound(apply: ApplyModel) -> bool {
    &&& in_range(apply)
    &&& scope::identities_differ(apply.scope.cards)
    &&& apply.scope.cards.len() <= usize::MAX
    &&& apply.report.added + apply.report.updated + apply.report.skipped + updates_left(apply)
        + adds_left(apply) == apply.scope.cards.len()
}

/// The changes that a plan asks for, before the first of them.
pub open spec fn first_apply(plan: PlanModel) -> ApplyModel {
    ApplyModel {
        scope: plan.scope,
        report: plan.report,
        updates: plan.updates,
        adds: plan.adds,
        decks: Seq::empty(),
        phase: PhaseModel::UpdateDecks(0),
    }
}

// ── Carrying out ─────────────────────────────────────────────────────────────

/// Those of a batch whose note was found, or those whose note was not.
fn choose_updates<'a>(list: &'a [PendingUpdate], found: &Vec<bool>, wanted: bool) -> (out: Vec<
    &'a PendingUpdate,
>)
    requires
        found@.len() <= list@.len(),
    ensures
        sync::update_models(out@.unref()) == chosen(sync::update_models(list@), found@, wanted),
{
    let mut out: Vec<&'a PendingUpdate> = Vec::new();
    let ghost models = sync::update_models(list@);
    assert(sync::update_models(out@.unref()) == chosen(models, found@.take(0), wanted));
    for i in 0..found.len()
        invariant
            found@.len() <= list@.len(),
            models == sync::update_models(list@),
            sync::update_models(out@.unref()) == chosen(models, found@.take(i as int), wanted),
    {
        assert(found@.take(i + 1).drop_last() == found@.take(i as int));
        if found[i] == wanted {
            let ghost before = out@;
            out.push(&list[i]);
            assert(sync::update_models(out@.unref()) == sync::update_models(before.unref()).push(
                models[i as int],
            ));
        }
    }
    assert(found@.take(found@.len() as int) == found@);
    out
}

/// The additions of some updates.
fn cards_to_add(list: &Vec<&PendingUpdate>) -> (out: Vec<PendingAdd>)
    ensures
        sync::add_models(out@) == cards_of(sync::update_models(list@.unref())),
{
    let mut out: Vec<PendingAdd> = Vec::new();
    let ghost cards = cards_of(sync::update_models(list@.unref()));
    for i in 0..list.len()
        invariant
            cards == cards_of(sync::update_models(list@.unref())),
            sync::add_models(out@) == cards.take(i as int),
    {
        let ghost before = out@;
        out.push(list[i].card.clone());
        assert(cards[i as int] == list@[i as int].card@);
        assert(sync::add_models(out@) == sync::add_models(before).push(cards[i as int]));
        assert(cards.take(i + 1) == cards.take(i as int).push(cards[i as int]));
    }
    assert(cards.take(cards.len() as int) == cards);
    out
}

/// The notes of some additions.
fn notes_to_add(list: &[PendingAdd]) -> (out: Vec<AnkiNote>)
    ensures
        anki::note_models(out@) == notes_of(sync::add_models(list@)),
{
    let mut out: Vec<AnkiNote> = Vec::new();
    let ghost notes = notes_of(sync::add_models(list@));
    for i in 0..list.len()
        invariant
            notes == notes_of(sync::add_models(list@)),
            anki::note_models(out@) == notes.take(i as int),
    {
        let ghost before = out@;
        out.push(list[i].note.clone());
        assert(notes[i as int] == list@[i as int].note@);
        assert(anki::note_models(out@) == anki::note_models(before).push(notes[i as int]));
        assert(notes.take(i + 1) == notes.take(i as int).push(notes[i as int]));
    }
    assert(notes.take(notes.len() as int) == notes);
    out
}

/// The updates that a request carries.
fn updates_to_send(list: &[PendingUpdate]) -> (out: Vec<(u64, AnkiNote)>)
    ensures
        numbered_models(out@) == update_requests(sync::update_models(list@)),
{
    let mut out: Vec<(u64, AnkiNote)> = Vec::new();
    let ghost requests = update_requests(sync::update_models(list@));
    for i in 0..list.len()
        invariant
            requests == update_requests(sync::update_models(list@)),
            numbered_models(out@) == requests.take(i as int),
    {
        let ghost before = out@;
        out.push((list[i].anki_id, list[i].card.note.clone()));
        assert(requests[i as int] == (list@[i as int].anki_id, list@[i as int].card.note@));
        assert(numbered_models(out@) == numbered_models(before).push(requests[i as int]));
        assert(requests.take(i + 1) == requests.take(i as int).push(requests[i as int]));
    }
    assert(requests.take(requests.len() as int) == requests);
    out
}

/// The decks that the notes of some updates belong in.
fn moves_to_make(list: &Vec<&PendingUpdate>) -> (out: Vec<(u64, String)>)
    ensures
        anki::move_models(out@) == moves_of(sync::update_models(list@.unref())),
{
    let mut out: Vec<(u64, String)> = Vec::new();
    let ghost moves = moves_of(sync::update_models(list@.unref()));
    for i in 0..list.len()
        invariant
            moves == moves_of(sync::update_models(list@.unref())),
            anki::move_models(out@) == moves.take(i as int),
    {
        let ghost before = out@;
        out.push((list[i].anki_id, list[i].card.note.deck.clone()));
        assert(moves[i as int] == (list@[i as int].anki_id, list@[i as int].card.note.deck@));
        assert(anki::move_models(out@) == anki::move_models(before).push(moves[i as int]));
        assert(moves.take(i + 1) == moves.take(i as int).push(moves[i as int]));
    }
    assert(moves.take(moves.len() as int) == moves);
    out
}

/// Records the digests of some cards.
fn record_hashes(known: &mut SyncState, list: &Vec<&PendingUpdate>)
    ensures
        final(known)@ == with_hashes(
            old(known)@,
            cards_of(sync::update_models(list@.unref())),
        ),
        final(known).file_path() == old(known).file_path(),
{
    let ghost cards = cards_of(sync::update_models(list@.unref()));
    for i in 0..list.len()
        invariant
            cards == cards_of(sync::update_models(list@.unref())),
            known@ == with_hashes(old(known)@, cards.take(i as int)),
            known.file_path() == old(known).file_path(),
    {
        assert(cards.take(i + 1).drop_last() == cards.take(i as int));
        assert(cards[i as int] == list@[i as int].card@);
        let card = &list[i].card;
        known.set_hash(card.note_id.as_str(), card.fp.as_str(), card.hash.clone());
    }
    assert(cards.take(cards.len() as int) == cards);
}

/// Records the notes and the digests of some cards.
fn record_notes(known: &mut SyncState, list: &[PendingAdd], ids: &Vec<u64>)
    ensures
        final(known)@ == with_notes(
            old(known)@,
            sync::add_models(list@),
            ids@,
            shorter(list@.len(), ids@.len()),
        ),
        final(known).file_path() == old(known).file_path(),
{
    let ghost cards = sync::add_models(list@);
    let count = if list.len() < ids.len() {
        list.len()
    } else {
        ids.len()
    };
    for i in 0..count
        invariant
            count == shorter(list@.len(), ids@.len()),
            cards == sync::add_models(list@),
            known@ == with_notes(old(known)@, cards, ids@, i as nat),
            known.file_path() == old(known).file_path(),
    {
        let card = &list[i];
        assert(cards[i as int] == card@);
        known.insert(card.note_id.as_str(), card.fp.as_str(), ids[i]);
        known.set_hash(card.note_id.as_str(), card.fp.as_str(), card.hash.clone());
    }
}

/// Forgets some cards.
pub(crate) fn forget(known: &mut SyncState, list: &Vec<(String, String, u64)>)
    ensures
        final(known)@ == without(old(known)@, state::known_models(list@)),
        final(known).file_path() == old(known).file_path(),
{
    let ghost cards = state::known_models(list@);
    for i in 0..list.len()
        invariant
            cards == state::known_models(list@),
            known@ == without(old(known)@, cards.take(i as int)),
            known.file_path() == old(known).file_path(),
    {
        assert(cards.take(i + 1).drop_last() == cards.take(i as int));
        known.remove(list[i].0.as_str(), list[i].1.as_str());
    }
    assert(cards.take(cards.len() as int) == cards);
}

/// One line where the progress is told.
fn progress_lines(options: &SyncOptions<'_>, line: String) -> (lines: Vec<Line>)
    ensures
        messages::line_models(lines@) == progress_line(options@, line@),
{
    if options.progress {
        sync::one_line(line)
    } else {
        sync::no_lines()
    }
}

/// Tells whether a tracked card is to be deleted.
fn check_stale(scope: &Scope, options: &SyncOptions<'_>, note_id: &str, fp: &str) -> (stale: bool)
    ensures
        forall|anki_id: u64|
            stale == #[trigger] is_stale(scope@, options@)(
                (KnownCard { note_id: note_id@, fp: fp@, anki_id }),
            ),
{
    if (options.note_filter.is_some() || options.tag_filter.is_some()) && !scope.tags.contains_key(
        note_id,
    ) {
        return false;
    }
    !scope::contains_card(&scope.cards, note_id, fp)
}

impl Apply {
    /// The changes that a complete plan asks for.
    pub fn new(plan: Plan) -> (apply: Self)
        requires
            sync::is_sound(plan@),
            plan@.draft is None,
            plan@.next == plan@.scope.cards.len(),
        ensures
            apply@ == first_apply(plan@),
            is_sound(apply@),
    {
        let (scope, report, updates, adds) = plan.into_parts();
        let apply = Apply {
            scope,
            report,
            updates,
            adds,
            decks: Vec::new(),
            phase: Phase::UpdateDecks(0),
        };
        assert(apply@.decks =~= Seq::<Seq<char>>::empty());
        apply
    }

    /// Makes sure of a deck.
    fn ensure_deck(&mut self, deck: String) -> (action: ApplyAction)
        ensures
            final(self)@ == (ApplyModel {
                decks: if old(self)@.decks.contains(deck@) {
                    old(self)@.decks
                } else {
                    old(self)@.decks.push(deck@)
                },
                ..old(self)@
            }),
            action@ == if old(self)@.decks.contains(deck@) {
                ApplyActionModel::Continue
            } else {
                ApplyActionModel::CreateDeck(deck@)
            },
    {
        if card_note::contains_text(&self.decks, deck.as_str()) {
            ApplyAction::Continue
        } else {
            let ghost before = self.decks@;
            self.decks.push(deck.clone());
            assert(text::texts(self.decks@) == text::texts(before).push(deck@));
            ApplyAction::CreateDeck(deck)
        }
    }

    /// Says what is to be done next, given that what it said last has been done.
    pub fn step(&mut self, known: &mut SyncState, options: &SyncOptions<'_>) -> (step: ApplyStep)
        requires
            is_sound(old(self)@),
        ensures
            ({
                let outcome = apply_step(
                    old(self)@,
                    old(known)@,
                    old(known).listed(),
                    options@,
                );
                &&& final(self)@ == outcome.apply
                &&& final(known)@ == outcome.known
                &&& step.action@ == outcome.action
                &&& messages::line_models(step.lines@) == outcome.lines
            }),
            is_sound(final(self)@),
            final(known).file_path() == old(known).file_path(),
            step.action is UpdateNotes ==> awaits_outcomes(final(self)@),
            step.action is AddNotes ==> awaits_ids(final(self)@),
            old(self)@.phase is Clearing ==> state::lists_known(
                old(known).listed(),
                old(known)@,
            ),
    {
        let ghost before = self@;
        let mut phase = Phase::Done;
        std::mem::swap(&mut phase, &mut self.phase);
        assert(before.phase == phase@);
        match phase {
            Phase::Clearing => self.clear(known, options),
            Phase::Deleted(stale) => {
                forget(known, &stale);
                self.report.deleted = stale.len();
                self.phase = Phase::Finishing;
                ApplyStep { lines: sync::no_lines(), action: ApplyAction::Save }
            },
            Phase::Finishing => {
                let action = if options.dry_run {
                    ApplyAction::Continue
                } else {
                    ApplyAction::Save
                };
                self.phase = Phase::Done;
                ApplyStep { lines: sync::no_lines(), action }
            },
            Phase::Done => {
                ApplyStep { lines: sync::no_lines(), action: ApplyAction::Done(self.report) }
            },
            Phase::AddDecks(_) | Phase::Adding(_) | Phase::Added(_) | Phase::AddSaved(_) => {
                self.phase = phase;
                self.step_adds(known, options)
            },
            _ => {
                self.phase = phase;
                self.step_updates(known, options)
            },
        }
    }

    /// Deletes what is no longer there.
    fn clear(&mut self, known: &mut SyncState, options: &SyncOptions<'_>) -> (step: ApplyStep)
        requires
            is_sound((ApplyModel { phase: PhaseModel::Clearing, ..old(self)@ })),
        ensures
            ({
                let outcome = end_step(
                    (ApplyModel { phase: PhaseModel::Clearing, ..old(self)@ }),
                    old(known)@,
                    old(known).listed(),
                    options@,
                );
                &&& final(self)@ == outcome.apply
                &&& final(known)@ == outcome.known
                &&& step.action@ == outcome.action
                &&& messages::line_models(step.lines@) == outcome.lines
            }),
            is_sound(final(self)@),
            final(known).file_path() == old(known).file_path(),
            state::lists_known(old(known).listed(), old(known)@),
    {
        let all = known.all_keys();
        let ghost listed = known.listed();
        let ghost pred = is_stale(self@.scope, options@);
        let mut stale: Vec<(String, String, u64)> = Vec::new();
        let mut ids: Vec<u64> = Vec::new();
        assert(listed.take(0).filter(pred) == Seq::<KnownCard>::empty()) by {
            reveal(Seq::filter);
        }
        assert(state::known_models(stale@) == Seq::<KnownCard>::empty());
        for i in 0..all.len()
            invariant
                listed == state::known_models(all@),
                pred == is_stale(self.scope@, options@),
                state::known_models(stale@) == listed.take(i as int).filter(pred),
                ids@ == state::known_models(stale@).map_values(|card: KnownCard| card.anki_id),
        {
            proof {
                reveal(Seq::filter);
                assert(listed.take(i + 1).drop_last() == listed.take(i as int));
                assert(listed.take(i + 1).last() == listed[i as int]);
            }
            let ghost card = listed[i as int];
            let ghost kept = stale@;
            if check_stale(&self.scope, options, all[i].0.as_str(), all[i].1.as_str()) {
                assert(pred(card));
                stale.push((all[i].0.clone(), all[i].1.clone(), all[i].2));
                ids.push(all[i].2);
                assert(state::known_models(stale@) == state::known_models(kept).push(card));
            } else {
                assert(!pred(card));
            }
        }
        assert(listed.take(listed.len() as int) == listed);
        if stale.len() == 0 {
            self.phase = Phase::Finishing;
            return ApplyStep { lines: sync::no_lines(), action: ApplyAction::Continue };
        }
        if options.dry_run {
            self.report.deleted = stale.len();
            self.phase = Phase::Finishing;
            return ApplyStep {
                lines: sync::one_line(messages::would_delete_line(ids.len())),
                action: ApplyAction::Continue,
            };
        }
        let lines = progress_lines(options, messages::deleting_line(ids.len()));
        self.phase = Phase::Deleted(stale);
        ApplyStep { lines, action: ApplyAction::DeleteNotes(ids) }
    }

    /// Goes one step on with the additions.
    fn step_adds(&mut self, known: &SyncState, options: &SyncOptions<'_>) -> (step: ApplyStep)
        requires
            is_sound(old(self)@),
            old(self)@.phase is AddDecks || old(self)@.phase is Adding || old(self)@.phase is Added
                || old(self)@.phase is AddSaved,
        ensures
            ({
                let outcome = add_step(old(self)@, known@, options@);
                &&& final(self)@ == outcome.apply
                &&& known@ == outcome.known
                &&& step.action@ == outcome.action
                &&& messages::line_models(step.lines@) == outcome.lines
            }),
            is_sound(final(self)@),
    {
        let total = self.adds.len();
        let mut phase = Phase::Done;
        std::mem::swap(&mut phase, &mut self.phase);
        match phase {
            Phase::AddDecks(i) => {
                if i < total {
                    assert(old(self)@.adds[i as int] == self.adds@[i as int]@);
                    let deck = self.adds[i].note.deck.clone();
                    let action = self.ensure_deck(deck);
                    self.phase = Phase::AddDecks(i + 1);
                    ApplyStep { lines: sync::no_lines(), action }
                } else {
                    let lines = if total == 0 {
                        sync::no_lines()
                    } else {
                        progress_lines(options, messages::adding_line(total, ANKI_BATCH_SIZE))
                    };
                    self.phase = Phase::Adding(0);
                    ApplyStep { lines, action: ApplyAction::Continue }
                }
            },
            Phase::Adding(from) => {
                if from < total {
                    let end = end_of_batch(from, total);
                    let list = slice_subrange(self.adds.as_slice(), from, end);
                    assert(sync::add_models(list@) =~= batch(old(self)@.adds, from as int));
                    let notes = notes_to_add(list);
                    self.phase = Phase::Adding(from);
                    ApplyStep { lines: sync::no_lines(), action: ApplyAction::AddNotes(notes) }
                } else {
                    self.phase = Phase::Clearing;
                    ApplyStep { lines: sync::no_lines(), action: ApplyAction::Continue }
                }
            },
            Phase::Added(from) => {
                self.phase = Phase::AddSaved(from);
                ApplyStep { lines: sync::no_lines(), action: ApplyAction::Save }
            },
            Phase::AddSaved(from) => {
                let end = end_of_batch(from, total);
                assert(self.report.added + (end - from) <= self.scope.cards.len());
                self.report.added = self.report.added + (end - from);
                let lines = progress_lines(options, messages::added_line(end, total));
                self.phase = Phase::Adding(end);
                ApplyStep { lines, action: ApplyAction::Continue }
            },
            _ => {
                self.phase = phase;
                ApplyStep { lines: sync::no_lines(), action: ApplyAction::Continue }
            },
        }
    }

    /// Goes one step on with the updates.
    fn step_updates(&mut self, known: &mut SyncState, options: &SyncOptions<'_>) -> (step:
        ApplyStep)
        requires
            is_sound(old(self)@),
            old(self)@.phase is UpdateDecks || old(self)@.phase is Updating
                || old(self)@.phase is Moving || old(self)@.phase is Moved
                || old(self)@.phase is Readding || old(self)@.phase is Readded
                || old(self)@.phase is Updated || old(self)@.phase is UpdateSaved,
        ensures
            ({
                let outcome = update_step(old(self)@, old(known)@, options@);
                &&& final(self)@ == outcome.apply
                &&& final(known)@ == outcome.known
                &&& step.action@ == outcome.action
                &&& messages::line_models(step.lines@) == outcome.lines
            }),
            is_sound(final(self)@),
            final(known).file_path() == old(known).file_path(),
    {
        let total = self.updates.len();
        let mut phase = Phase::Done;
        std::mem::swap(&mut phase, &mut self.phase);
        match phase {
            Phase::UpdateDecks(i) => {
                if i < total {
                    assert(old(self)@.updates[i as int] == self.updates@[i as int]@);
                    let deck = self.updates[i].card.note.deck.clone();
                    let action = self.ensure_deck(deck);
                    self.phase = Phase::UpdateDecks(i + 1);
                    ApplyStep { lines: sync::no_lines(), action }
                } else {
                    let lines = if total == 0 {
                        sync::no_lines()
                    } else {
                        progress_lines(options, messages::updating_line(total, ANKI_BATCH_SIZE))
                    };
                    self.phase = Phase::Updating(0);
                    ApplyStep { lines, action: ApplyAction::Continue }
                }
            },
            Phase::Updating(from) => {
                if from < total {
                    let end = end_of_batch(from, total);
                    let list = slice_subrange(self.updates.as_slice(), from, end);
                    assert(sync::update_models(list@) =~= batch(old(self)@.updates, from as int));
                    let requests = updates_to_send(list);
                    self.phase = Phase::Updating(from);
                    ApplyStep {
                        lines: sync::no_lines(),
                        action: ApplyAction::UpdateNotes(requests),
                    }
                } else {
                    self.phase = Phase::AddDecks(0);
                    ApplyStep { lines: sync::no_lines(), action: ApplyAction::Continue }
                }
            },
            Phase::Moving(from, found) => {
                let list = slice_subrange(
                    self.updates.as_slice(),
                    from,
                    end_of_batch(from, total),
                );
                assert(sync::update_models(list@) =~= batch(old(self)@.updates, from as int));
                let kept = choose_updates(list, &found, true);
                assert(kept@.len() == sync::update_models(kept@.unref()).len());
                let action = if kept.len() == 0 {
                    ApplyAction::Continue
                } else {
                    ApplyAction::MoveNotes(moves_to_make(&kept))
                };
                self.phase = Phase::Moved(from, found);
                ApplyStep { lines: sync::no_lines(), action }
            },
            Phase::Moved(from, found) => {
                let list = slice_subrange(
                    self.updates.as_slice(),
                    from,
                    end_of_batch(from, total),
                );
                assert(sync::update_models(list@) =~= batch(old(self)@.updates, from as int));
                let kept = choose_updates(list, &found, true);
                record_hashes(known, &kept);
                let lost = choose_updates(list, &found, false);
                assert(lost@.len() == sync::update_models(lost@.unref()).len());
                if lost.len() == 0 {
                    self.phase = Phase::Updated(from);
                } else {
                    self.phase = Phase::Readding(from, found);
                }
                ApplyStep { lines: sync::no_lines(), action: ApplyAction::Continue }
            },
            Phase::Readding(from, found) => {
                let list = slice_subrange(
                    self.updates.as_slice(),
                    from,
                    end_of_batch(from, total),
                );
                assert(sync::update_models(list@) =~= batch(old(self)@.updates, from as int));
                let lost = choose_updates(list, &found, false);
                let cards = cards_to_add(&lost);
                let notes = notes_to_add(cards.as_slice());
                self.phase = Phase::Readding(from, found);
                ApplyStep { lines: sync::no_lines(), action: ApplyAction::AddNotes(notes) }
            },
            Phase::Readded(from) => {
                self.phase = Phase::Updated(from);
                ApplyStep { lines: sync::no_lines(), action: ApplyAction::Save }
            },
            Phase::Updated(from) => {
                self.phase = Phase::UpdateSaved(from);
                ApplyStep { lines: sync::no_lines(), action: ApplyAction::Save }
            },
            Phase::UpdateSaved(from) => {
                let end = end_of_batch(from, total);
                assert(self.report.updated + (end - from) <= self.scope.cards.len());
                self.report.updated = self.report.updated + (end - from);
                let lines = progress_lines(options, messages::updated_line(end, total));
                self.phase = Phase::Updating(end);
                ApplyStep { lines, action: ApplyAction::Continue }
            },
            _ => {
                self.phase = phase;
                ApplyStep { lines: sync::no_lines(), action: ApplyAction::Continue }
            },
        }
    }

    /// Takes the outcomes of a batch of updates: for each note nothing, or an error. A note that
    /// is missing in Anki is added again; any other error ends the run.
    pub fn notes_updated(&mut self, outcomes: &Vec<Option<String>>) -> (reply: (
        Vec<Line>,
        Option<String>,
    ))
        requires
            is_sound(old(self)@),
            awaits_outcomes(old(self)@),
        ensures
            is_sound(final(self)@),
            ({
                let from = old(self)@.phase->Updating_0;
                let list = batch(old(self)@.updates, from);
                let all = anki::outcome_models(outcomes@);
                let heard = all.take(shorter(list.len(), all.len()) as int);
                match first_failure(heard) {
                    Some(i) => {
                        &&& text::opt_text(reply.1) == Some(
                            "AnkiConnect update failed: "@ + heard[i]->0,
                        )
                        &&& messages::line_models(reply.0@) == missing_lines(list, heard.take(i))
                        &&& final(self)@ == old(self)@
                    },
                    None => {
                        &&& reply.1 is None
                        &&& messages::line_models(reply.0@) == missing_lines(list, heard)
                        &&& final(self)@ == (ApplyModel {
                            phase: PhaseModel::Moving(from, found_in(heard)),
                            ..old(self)@
                        })
                    },
                }
            }),
    {
        let total = self.updates.len();
        let mut lines: Vec<Line> = Vec::new();
        let mut found: Vec<bool> = Vec::new();
        if let Phase::Updating(from) = self.phase {
            let end = end_of_batch(from, total);
            let ghost list = batch(self@.updates, from as int);
            let ghost all = anki::outcome_models(outcomes@);
            let ghost heard = all.take(shorter(list.len(), all.len()) as int);
            let count = if end - from < outcomes.len() {
                end - from
            } else {
                outcomes.len()
            };
            assert(messages::line_models(lines@) == missing_lines(list, heard.take(0)));
            assert(found@ == found_in(heard.take(0)));
            assert(first_failure(heard.take(0)) is None);
            for i in 0..count
                invariant
                    self@ == old(self)@,
                    from < total,
                    total == self.updates@.len(),
                    end == batch_end(from as int, total as nat),
                    from <= end <= total,
                    list == batch(self@.updates, from as int),
                    all == anki::outcome_models(outcomes@),
                    count == shorter(list.len(), all.len()),
                    heard == all.take(count as int),
                    old(self)@.phase == PhaseModel::Updating(from as int),
                    is_sound(old(self)@),
                    first_failure(heard.take(i as int)) is None,
                    messages::line_models(lines@) == missing_lines(list, heard.take(i as int)),
                    found@ == found_in(heard.take(i as int)),
            {
                proof {
                    assert(heard[i as int] == text::opt_text(outcomes@[i as int]));
                    assert(heard.take(i + 1).drop_last() == heard.take(i as int));
                    assert(heard.take(i + 1).last() == heard[i as int]);
                    assert(list[i as int] == self.updates@[from + i]@);
                }
                let ghost lines_before = lines@;
                match &outcomes[i] {
                    None => {
                        found.push(true);
                    },
                    Some(error) => {
                        if is_note_not_found_message(error.as_str()) {
                            let line = messages::readding_line(self.updates[from + i].anki_id);
                            let ghost text = line@;
                            lines.push(Line::Warning(line));
                            assert(messages::line_models(lines@) == messages::line_models(
                                lines_before,
                            ).push(LineModel::Warning(text)));
                            found.push(false);
                        } else {
                            let mut failure = "AnkiConnect update failed: ".to_owned();
                            failure.append(error.as_str());
                            proof {
                                lemma_first_failure(heard, i as int);
                            }
                            return (lines, Some(failure));
                        }
                    },
                }
                assert(found@ =~= found_in(heard.take(i + 1)));
            }
            assert(heard.take(count as int) == heard);
            self.phase = Phase::Moving(from, found);
        }
        (lines, None)
    }

    /// Takes the numbers of notes that have been added, and records them.
    pub fn notes_added(&mut self, known: &mut SyncState, ids: &Vec<u64>)
        requires
            is_sound(old(self)@),
            awaits_ids(old(self)@),
        ensures
            final(self)@ == after_ids(old(self)@),
            is_sound(final(self)@),
            final(known)@ == with_notes(
                old(known)@,
                being_added(old(self)@),
                ids@,
                shorter(being_added(old(self)@).len(), ids@.len()),
            ),
            final(known).file_path() == old(known).file_path(),
    {
        let mut phase = Phase::Done;
        std::mem::swap(&mut phase, &mut self.phase);
        match phase {
            Phase::Adding(from) => {
                let total = self.adds.len();
                let list = slice_subrange(self.adds.as_slice(), from, end_of_batch(from, total));
                assert(sync::add_models(list@) =~= batch(old(self)@.adds, from as int));
                record_notes(known, list, ids);
                self.phase = Phase::Added(from);
            },
            Phase::Readding(from, found) => {
                let total = self.updates.len();
                let list = slice_subrange(
                    self.updates.as_slice(),
                    from,
                    end_of_batch(from, total),
                );
                assert(sync::update_models(list@) =~= batch(old(self)@.updates, from as int));
                let cards = cards_to_add(&choose_updates(list, &found, false));
                assert(cards@.len() == sync::add_models(cards@).len());
                record_notes(known, cards.as_slice(), ids);
                self.phase = Phase::Readded(from);
            },
            _ => {
                self.phase = phase;
            },
        }
    }
}

/// The first failure is the one before which there is none.
proof fn lemma_first_failure(outcomes: Seq<Option<Seq<char>>>, i: int)
    requires
        0 <= i < outcomes.len(),
        first_failure(outcomes.take(i)) is None,
        is_failure(outcomes[i]),
    ensures
        first_failure(outcomes) == Some(i),
    decreases outcomes.len(),
{
    let front = outcomes.drop_last();
    if i == outcomes.len() - 1 {
        assert(front == outcomes.take(i));
    } else {
        assert(front.take(i) == outcomes.take(i));
        lemma_first_failure(front, i);
    }
}

} // verus!
