//! The requests that AnkiConnect understands, and what its replies say.

use vstd::prelude::*;

use crate::card_note;
use crate::chars;
use crate::json;
use crate::json::{Json, JsonModel};
use crate::text;

verus! {

// ── Notes ────────────────────────────────────────────────────────────────────

/// A note as Anki stores it.
#[derive(Debug, PartialEq, Eq)]
pub struct AnkiNote {
    pub deck: String,
    pub model: String,
    /// The name and the content of each field.
    pub fields: Vec<(String, String)>,
    pub tags: Vec<String>,
}

/// What an `AnkiNote` says.
pub struct NoteModel {
    pub deck: Seq<char>,
    pub model: Seq<char>,
    pub fields: Seq<(Seq<char>, Seq<char>)>,
    pub tags: Seq<Seq<char>>,
}

/// What a list of names and contents says.
pub open spec fn field_models(fields: Seq<(String, String)>) -> Seq<(Seq<char>, Seq<char>)> {
    Seq::new(fields.len(), |i: int| (fields[i].0@, fields[i].1@))
}

impl View for AnkiNote {
    type V = NoteModel;

    open spec fn view(&self) -> NoteModel {
        NoteModel {
            deck: self.deck@,
            model: self.model@,
            fields: field_models(self.fields@),
            tags: text::texts(self.tags@),
        }
    }
}

/// What a list of notes says.
pub open spec fn note_models(notes: Seq<AnkiNote>) -> Seq<NoteModel> {
    Seq::new(notes.len(), |i: int| notes[i]@)
}

/// A copy of a list of fields.
fn clone_fields(fields: &Vec<(String, String)>) -> (copy: Vec<(String, String)>)
    ensures
        field_models(copy@) == field_models(fields@),
{
    let mut copy: Vec<(String, String)> = Vec::new();
    for i in 0..fields.len()
        invariant
            field_models(copy@) == field_models(fields@).take(i as int),
    {
        let ghost before = copy@;
        copy.push((fields[i].0.clone(), fields[i].1.clone()));
        assert(field_models(copy@) == field_models(before).push(field_models(fields@)[i as int]));
        assert(field_models(fields@).take(i + 1) == field_models(fields@).take(i as int).push(
            field_models(fields@)[i as int],
        ));
    }
    assert(field_models(fields@).take(fields@.len() as int) == field_models(fields@));
    copy
}

impl Clone for AnkiNote {
    fn clone(&self) -> (copy: Self)
        ensures
            copy@ == self@,
    {
        let copy = AnkiNote {
            deck: self.deck.clone(),
            model: self.model.clone(),
            fields: clone_fields(&self.fields),
            tags: chars::clone_all(&self.tags),
        };
        assert(copy@.tags == self@.tags);
        copy
    }
}

// ── Errors ───────────────────────────────────────────────────────────────────

/// The requests whose replies are lists.
#[derive(Debug, Clone, Copy, PartialEq, Eq, Structural)]
pub enum ListReply {
    AddNotes,
    NotesInfo,
    Multi,
}

/// Why AnkiConnect could not do what was asked.
#[derive(Debug, PartialEq, Eq)]
pub enum AnkiError {
    /// Nobody answers at the address.
    Unreachable(String),
    /// The request failed in another way.
    RequestFailed(String),
    /// AnkiConnect refused an action.
    Refused(String, String),
    /// The reply is not a list.
    NotAList(ListReply),
    /// The reply is a list of another length than the request.
    WrongCount(ListReply, usize, usize),
    /// At this place of the reply there is no number of a note.
    NoNoteId(usize),
    /// The reply is not the number of a note.
    NotANumber,
    /// A deck could not be changed.
    DeckChange(String),
}

/// What an `AnkiError` says.
pub enum AnkiErrorModel {
    Unreachable(Seq<char>),
    RequestFailed(Seq<char>),
    Refused(Seq<char>, Seq<char>),
    NotAList(ListReply),
    WrongCount(ListReply, nat, nat),
    NoNoteId(nat),
    NotANumber,
    DeckChange(Seq<char>),
}

impl View for AnkiError {
    type V = AnkiErrorModel;

    open spec fn view(&self) -> AnkiErrorModel {
        match self {
            AnkiError::Unreachable(url) => AnkiErrorModel::Unreachable(url@),
            AnkiError::RequestFailed(reason) => AnkiErrorModel::RequestFailed(reason@),
            AnkiError::Refused(action, error) => AnkiErrorModel::Refused(action@, error@),
            AnkiError::NotAList(reply) => AnkiErrorModel::NotAList(*reply),
            AnkiError::WrongCount(reply, got, expected) => AnkiErrorModel::WrongCount(
                *reply,
                *got as nat,
                *expected as nat,
            ),
            AnkiError::NoNoteId(index) => AnkiErrorModel::NoNoteId(*index as nat),
            AnkiError::NotANumber => AnkiErrorModel::NotANumber,
            AnkiError::DeckChange(error) => AnkiErrorModel::DeckChange(error@),
        }
    }
}

/// What the user is told of an error.
pub open spec fn error_text(error: AnkiErrorModel) -> Seq<char> {
    match error {
        AnkiErrorModel::Unreachable(url) => "could not connect to Anki at "@ + url
            + "\nMake sure Anki is running and the AnkiConnect plugin is installed.\nInstall it from: https://ankiweb.net/shared/info/2055492159"@,
        AnkiErrorModel::RequestFailed(reason) => "AnkiConnect request failed: "@ + reason,
        AnkiErrorModel::Refused(action, error) => "AnkiConnect error for action "@ + action + ": "@
            + error,
        AnkiErrorModel::NotAList(reply) => (match reply {
            ListReply::AddNotes => "addNotes"@,
            ListReply::NotesInfo => "notesInfo"@,
            ListReply::Multi => "multi"@,
        }) + " did not return an array"@,
        AnkiErrorModel::WrongCount(reply, got, expected) => match reply {
            ListReply::AddNotes => "addNotes returned "@ + text::decimal(got) + " note IDs for "@
                + text::decimal(expected) + " requested notes"@,
            ListReply::NotesInfo => "notesInfo returned "@ + text::decimal(got) + " entries for "@
                + text::decimal(expected) + " requested notes"@,
            ListReply::Multi => "multi returned "@ + text::decimal(got) + " results for "@
                + text::decimal(expected) + " requested actions"@,
        },
        AnkiErrorModel::NoNoteId(index) => "addNotes did not return a note ID at index "@
            + text::decimal(index),
        AnkiErrorModel::NotANumber => "addNote did not return a numeric note ID"@,
        AnkiErrorModel::DeckChange(error) => "AnkiConnect error changing deck: "@ + error,
    }
}

/// Two counts with words before, between and behind them.
fn count_text(before: &str, got: usize, between: &str, expected: usize, behind: &str) -> (message:
    String)
    ensures
        message@ == before@ + text::decimal(got as nat) + between@ + text::decimal(
            expected as nat,
        ) + behind@,
{
    let mut message = before.to_owned();
    message.append(chars::decimal(got as u64).as_str());
    message.append(between);
    message.append(chars::decimal(expected as u64).as_str());
    message.append(behind);
    message
}

impl AnkiError {
    /// What the user is told.
    pub fn message(&self) -> (message: String)
        ensures
            message@ == error_text(self@),
    {
        match self {
            AnkiError::Unreachable(url) => {
                let mut message = "could not connect to Anki at ".to_owned();
                message.append(url.as_str());
                message.append(
                    "\nMake sure Anki is running and the AnkiConnect plugin is installed.\nInstall it from: https://ankiweb.net/shared/info/2055492159",
                );
                message
            },
            AnkiError::RequestFailed(reason) => {
                let mut message = "AnkiConnect request failed: ".to_owned();
                message.append(reason.as_str());
                message
            },
            AnkiError::Refused(action, error) => {
                let mut message = "AnkiConnect error for action ".to_owned();
                message.append(action.as_str());
                message.append(": ");
                message.append(error.as_str());
                message
            },
            AnkiError::NotAList(reply) => {
                let mut message = match reply {
                    ListReply::AddNotes => "addNotes".to_owned(),
                    ListReply::NotesInfo => "notesInfo".to_owned(),
                    ListReply::Multi => "multi".to_owned(),
                };
                message.append(" did not return an array");
                message
            },
            AnkiError::WrongCount(reply, got, expected) => match reply {
                ListReply::AddNotes => count_text(
                    "addNotes returned ",
                    *got,
                    " note IDs for ",
                    *expected,
                    " requested notes",
                ),
                ListReply::NotesInfo => count_text(
                    "notesInfo returned ",
                    *got,
                    " entries for ",
                    *expected,
                    " requested notes",
                ),
                ListReply::Multi => count_text(
                    "multi returned ",
                    *got,
                    " results for ",
                    *expected,
                    " requested actions",
                ),
            },
            AnkiError::NoNoteId(index) => {
                let mut message = "addNotes did not return a note ID at index ".to_owned();
                message.append(chars::decimal(*index as u64).as_str());
                message
            },
            AnkiError::NotANumber => "addNote did not return a numeric note ID".to_owned(),
            AnkiError::DeckChange(error) => {
                let mut message = "AnkiConnect error changing deck: ".to_owned();
                message.append(error.as_str());
                message
            },
        }
    }
}

/// Why a request failed, by the words of the failure.
pub open spec fn failure_of(reason: Seq<char>, url: Seq<char>) -> AnkiErrorModel {
    let lower = text::lowercase(reason);
    if text::contains(lower, "connection refused"@) || text::contains(lower, "connect error"@) {
        AnkiErrorModel::Unreachable(url)
    } else {
        AnkiErrorModel::RequestFailed(reason)
    }
}

// ── Requests ─────────────────────────────────────────────────────────────────

/// An action with its parameters.
pub open spec fn action_model(action: Seq<char>, params: JsonModel) -> JsonModel {
    JsonModel::Object(
        seq![
            ("action"@, JsonModel::Text(action)),
            ("version"@, JsonModel::Number(6)),
            ("params"@, params),
        ],
    )
}

/// An action with its parameters.
fn action_json(action: &str, params: Json) -> (json: Json)
    ensures
        json@ == action_model(action@, params@),
{
    let members = json::with_member(json::no_members(), "action", json::text(action));
    let members = json::with_member(members, "version", Json::Number(6));
    let members = json::with_member(members, "params", params);
    assert(json::member_models(members@) =~= action_model(action@, params@)->Object_0);
    json::object(members)
}

/// The fields of a note as JSON.
pub open spec fn fields_model(fields: Seq<(Seq<char>, Seq<char>)>) -> JsonModel {
    JsonModel::Object(
        fields.map_values(|f: (Seq<char>, Seq<char>)| (f.0, JsonModel::Text(f.1))),
    )
}

/// The fields of a note as JSON.
fn fields_json(fields: &Vec<(String, String)>) -> (json: Json)
    ensures
        json@ == fields_model(field_models(fields@)),
{
    let ghost all = field_models(fields@).map_values(
        |f: (Seq<char>, Seq<char>)| (f.0, JsonModel::Text(f.1)),
    );
    let mut members = json::no_members();
    for i in 0..fields.len()
        invariant
            all == field_models(fields@).map_values(
                |f: (Seq<char>, Seq<char>)| (f.0, JsonModel::Text(f.1)),
            ),
            json::member_models(members@) == all.take(i as int),
    {
        members =
        json::with_member(members, fields[i].0.as_str(), json::text(fields[i].1.as_str()));
        assert(all[i as int] == (fields@[i as int].0@, JsonModel::Text(fields@[i as int].1@)));
        assert(all.take(i + 1) =~= all.take(i as int).push(all[i as int]));
    }
    assert(all.take(all.len() as int) == all);
    json::object(members)
}

/// A note that is to be added, as JSON. Duplicates are refused.
pub open spec fn note_json_model(note: NoteModel) -> JsonModel {
    JsonModel::Object(
        seq![
            ("deckName"@, JsonModel::Text(note.deck)),
            ("modelName"@, JsonModel::Text(note.model)),
            ("fields"@, fields_model(note.fields)),
            ("tags"@, JsonModel::List(json::text_values(note.tags))),
            (
                "options"@,
                JsonModel::Object(seq![("allowDuplicate"@, JsonModel::Bool(false))]),
            ),
        ],
    )
}

/// A note that is to be added, as JSON.
fn note_json(note: &AnkiNote) -> (json: Json)
    ensures
        json@ == note_json_model(note@),
{
    let members = json::with_member(json::no_members(), "deckName", json::text(note.deck.as_str()));
    let members = json::with_member(members, "modelName", json::text(note.model.as_str()));
    let members = json::with_member(members, "fields", fields_json(&note.fields));
    let members = json::with_member(members, "tags", json::text_list(&note.tags));
    let options = json::object_of("allowDuplicate", Json::Bool(false));
    let members = json::with_member(members, "options", options);
    assert(json::member_models(members@) =~= note_json_model(note@)->Object_0);
    json::object(members)
}

/// The new content of a note, as JSON.
pub open spec fn changes_model(
    id: u64,
    fields: Seq<(Seq<char>, Seq<char>)>,
    tags: Seq<Seq<char>>,
) -> JsonModel {
    JsonModel::Object(
        seq![
            (
                "note"@,
                JsonModel::Object(
                    seq![
                        ("id"@, JsonModel::Number(id)),
                        ("fields"@, fields_model(fields)),
                        ("tags"@, JsonModel::List(json::text_values(tags))),
                    ],
                ),
            ),
        ],
    )
}

/// The new content of a note, as JSON.
fn changes_json(id: u64, fields: &Vec<(String, String)>, tags: &Vec<String>) -> (json: Json)
    ensures
        json@ == changes_model(id, field_models(fields@), text::texts(tags@)),
{
    let members = json::with_member(json::no_members(), "id", Json::Number(id));
    let members = json::with_member(members, "fields", fields_json(fields));
    let members = json::with_member(members, "tags", json::text_list(tags));
    assert(json::member_models(members@) =~= seq![
        ("id"@, JsonModel::Number(id)),
        ("fields"@, fields_model(field_models(fields@))),
        ("tags"@, JsonModel::List(json::text_values(text::texts(tags@)))),
    ]);
    json::object_of("note", json::object(members))
}

/// Several actions in one request.
pub open spec fn multi_model(actions: Seq<JsonModel>) -> JsonModel {
    action_model("multi"@, JsonModel::Object(seq![("actions"@, JsonModel::List(actions))]))
}

/// The cards that go to a deck, as JSON.
pub open spec fn deck_change_model(cards: Seq<JsonModel>, deck: Seq<char>) -> JsonModel {
    action_model(
        "changeDeck"@,
        JsonModel::Object(
            seq![("cards"@, JsonModel::List(cards)), ("deck"@, JsonModel::Text(deck))],
        ),
    )
}

/// The cards that go to a deck, as JSON.
fn deck_change_json(cards: Vec<Json>, deck: &str) -> (json: Json)
    ensures
        json@ == deck_change_model(json::json_models(cards@), deck@),
{
    let members = json::with_member(json::no_members(), "cards", json::list(cards));
    let members = json::with_member(members, "deck", json::text(deck));
    assert(json::member_models(members@) =~= seq![
        ("cards"@, JsonModel::List(json::json_models(cards@))),
        ("deck"@, JsonModel::Text(deck@)),
    ]);
    action_json("changeDeck", json::object(members))
}

/// The numbers of some notes, as JSON.
pub open spec fn note_ids_model(ids: Seq<u64>) -> JsonModel {
    JsonModel::Object(seq![("notes"@, JsonModel::List(json::number_values(ids)))])
}

/// AnkiConnect at an address. Each method gives the body of a request; what the reply says is
/// read by the functions below.
#[derive(Debug)]
pub struct AnkiClient {
    url: String,
}

impl View for AnkiClient {
    type V = Seq<char>;

    closed spec fn view(&self) -> Seq<char> {
        self.url@
    }
}

impl AnkiClient {
    /// AnkiConnect at an address.
    pub fn new(url: &str) -> (client: Self)
        ensures
            client@ == url@,
    {
        AnkiClient { url: url.to_owned() }
    }

    /// The address.
    pub fn url(&self) -> (url: &str)
        ensures
            url@ == self@,
    {
        self.url.as_str()
    }

    /// Why a request failed, by the words of the failure.
    pub fn request_failure(&self, reason: &str) -> (error: AnkiError)
        ensures
            error@ == failure_of(reason@, self@),
    {
        let lower = chars::to_lowercase(reason);
        if chars::contains(lower.as_str(), "connection refused") || chars::contains(
            lower.as_str(),
            "connect error",
        ) {
            AnkiError::Unreachable(self.url.clone())
        } else {
            AnkiError::RequestFailed(reason.to_owned())
        }
    }

    /// Asks whether AnkiConnect answers.
    pub fn check_connection(&self) -> (body: Json)
        ensures
            body@ == action_model("requestPermission"@, JsonModel::Object(Seq::empty())),
    {
        action_json("requestPermission", json::object(json::no_members()))
    }

    /// Creates a deck.
    pub fn create_deck(&self, name: &str) -> (body: Json)
        ensures
            body@ == action_model(
                "createDeck"@,
                JsonModel::Object(seq![("deck"@, JsonModel::Text(name@))]),
            ),
    {
        action_json("createDeck", json::object_of("deck", json::text(name)))
    }

    /// Adds some notes. Without notes there is no request.
    pub fn add_notes(&self, notes: &Vec<AnkiNote>) -> (body: Option<Json>)
        ensures
            match body {
                Some(json) => notes@.len() > 0 && json@ == action_model(
                    "addNotes"@,
                    JsonModel::Object(
                        seq![
                            (
                                "notes"@,
                                JsonModel::List(
                                    note_models(notes@).map_values(
                                        |note: NoteModel| note_json_model(note),
                                    ),
                                ),
                            ),
                        ],
                    ),
                ),
                None => notes@.len() == 0,
            },
    {
        if notes.len() == 0 {
            return None;
        }
        let ghost all = note_models(notes@).map_values(|note: NoteModel| note_json_model(note));
        let mut values: Vec<Json> = Vec::new();
        for i in 0..notes.len()
            invariant
                all == note_models(notes@).map_values(|note: NoteModel| note_json_model(note)),
                json::json_models(values@) == all.take(i as int),
        {
            let ghost before = values@;
            values.push(note_json(&notes[i]));
            assert(all[i as int] == note_json_model(notes@[i as int]@));
            assert(json::json_models(values@) =~= json::json_models(before).push(all[i as int]));
            assert(all.take(i + 1) =~= all.take(i as int).push(all[i as int]));
        }
        assert(all.take(all.len() as int) == all);
        Some(action_json("addNotes", json::object_of("notes", json::list(values))))
    }

    /// Adds a note.
    pub fn add_note(&self, note: &AnkiNote) -> (body: Json)
        ensures
            body@ == action_model(
                "addNote"@,
                JsonModel::Object(seq![("note"@, note_json_model(note@))]),
            ),
    {
        action_json("addNote", json::object_of("note", note_json(note)))
    }

    /// Changes the content of a note.
    pub fn update_note(&self, id: u64, fields: &Vec<(String, String)>, tags: &Vec<String>) -> (body:
        Json)
        ensures
            body@ == action_model(
                "updateNote"@,
                changes_model(id, field_models(fields@), text::texts(tags@)),
            ),
    {
        action_json("updateNote", changes_json(id, fields, tags))
    }

    /// Changes the content of some notes. Without notes there is no request.
    pub fn update_notes(&self, updates: &Vec<(u64, AnkiNote)>) -> (body: Option<Json>)
        ensures
            match body {
                Some(json) => updates@.len() > 0 && json@ == multi_model(
                    Seq::new(
                        updates@.len(),
                        |i: int|
                            action_model(
                                "updateNote"@,
                                changes_model(
                                    updates@[i].0,
                                    updates@[i].1@.fields,
                                    updates@[i].1@.tags,
                                ),
                            ),
                    ),
                ),
                None => updates@.len() == 0,
            },
    {
        if updates.len() == 0 {
            return None;
        }
        let ghost all = Seq::new(
            updates@.len(),
            |i: int|
                action_model(
                    "updateNote"@,
                    changes_model(updates@[i].0, updates@[i].1@.fields, updates@[i].1@.tags),
                ),
        );
        let mut actions: Vec<Json> = Vec::new();
        for i in 0..updates.len()
            invariant
                all == Seq::new(
                    updates@.len(),
                    |i: int|
                        action_model(
                            "updateNote"@,
                            changes_model(
                                updates@[i].0,
                                updates@[i].1@.fields,
                                updates@[i].1@.tags,
                            ),
                        ),
                ),
                json::json_models(actions@) == all.take(i as int),
        {
            let ghost before = actions@;
            let note = &updates[i].1;
            actions.push(
                action_json("updateNote", changes_json(updates[i].0, &note.fields, &note.tags)),
            );
            assert(json::json_models(actions@) =~= json::json_models(before).push(all[i as int]));
            assert(all.take(i + 1) =~= all.take(i as int).push(all[i as int]));
        }
        assert(all.take(all.len() as int) == all);
        Some(multi_json(actions))
    }

    /// Asks for the cards of a note that is to go to another deck.
    pub fn move_note_to_deck(&self, note_id: u64) -> (body: Json)
        ensures
            body@ == action_model("notesInfo"@, note_ids_model(seq![note_id])),
    {
        let ids: [u64; 1] = [note_id];
        assert(ids@ =~= seq![note_id]);
        action_json("notesInfo", json::object_of("notes", json::number_list(&ids)))
    }

    /// Asks for the cards of some notes that are to go to other decks. Without notes there is no
    /// request.
    pub fn move_notes_to_decks(&self, moves: &Vec<(u64, String)>) -> (body: Option<Json>)
        ensures
            match body {
                Some(json) => moves@.len() > 0 && json@ == action_model(
                    "notesInfo"@,
                    note_ids_model(moves@.map_values(|m: (u64, String)| m.0)),
                ),
                None => moves@.len() == 0,
            },
    {
        if moves.len() == 0 {
            return None;
        }
        let ghost all = moves@.map_values(|m: (u64, String)| m.0);
        let mut ids: Vec<u64> = Vec::new();
        for i in 0..moves.len()
            invariant
                all == moves@.map_values(|m: (u64, String)| m.0),
                ids@ == all.take(i as int),
        {
            ids.push(moves[i].0);
            assert(all.take(i + 1) =~= all.take(i as int).push(all[i as int]));
        }
        assert(all.take(all.len() as int) == all);
        Some(action_json("notesInfo", json::object_of("notes", json::number_list(ids.as_slice()))))
    }

    /// Deletes some notes.
    pub fn delete_notes(&self, ids: &[u64]) -> (body: Json)
        ensures
            body@ == action_model("deleteNotes"@, note_ids_model(ids@)),
    {
        action_json("deleteNotes", json::object_of("notes", json::number_list(ids)))
    }

    /// Stores a file in the media collection.
    pub fn store_media_file(&self, filename: &str, data_base64: &str) -> (body: Json)
        ensures
            body@ == action_model(
                "storeMediaFile"@,
                JsonModel::Object(
                    seq![
                        ("filename"@, JsonModel::Text(filename@)),
                        ("data"@, JsonModel::Text(data_base64@)),
                    ],
                ),
            ),
    {
        let members = json::with_member(json::no_members(), "filename", json::text(filename));
        let members = json::with_member(members, "data", json::text(data_base64));
        assert(json::member_models(members@) =~= seq![
            ("filename"@, JsonModel::Text(filename@)),
            ("data"@, JsonModel::Text(data_base64@)),
        ]);
        action_json("storeMediaFile", json::object(members))
    }
}

/// Several actions in one request.
fn multi_json(actions: Vec<Json>) -> (json: Json)
    ensures
        json@ == multi_model(json::json_models(actions@)),
{
    action_json("multi", json::object_of("actions", json::list(actions)))
}

// ── Replies ──────────────────────────────────────────────────────────────────

/// The error that a value speaks of. An empty one is none.
pub open spec fn error_in(value: JsonModel) -> Option<Seq<char>> {
    match json::field_of(value, "error"@) {
        Some(JsonModel::Text(error)) => if error.len() > 0 {
            Some(error)
        } else {
            None
        },
        _ => None,
    }
}

/// The error that a value speaks of.
fn read_error(value: &Json) -> (error: Option<String>)
    ensures
        text::opt_text(error) == error_in(value@),
{
    match value.get("error") {
        Some(error) => match error.as_str() {
            Some(content) => {
                if content.is_empty() {
                    None
                } else {
                    Some(content.to_owned())
                }
            },
            None => None,
        },
        None => None,
    }
}

/// What a reply gives: its result, or the error that it speaks of. A reply without a result gives
/// `null`.
pub open spec fn result_in(action: Seq<char>, response: JsonModel) -> Result<
    JsonModel,
    AnkiErrorModel,
> {
    match error_in(response) {
        Some(error) => Err(AnkiErrorModel::Refused(action, error)),
        None => Ok(
            match json::field_of(response, "result"@) {
                Some(result) => result,
                None => JsonModel::Null,
            },
        ),
    }
}

/// Reads a reply.
pub fn read_response(action: &str, response: &Json) -> (result: Result<Json, AnkiError>)
    ensures
        match result {
            Ok(json) => result_in(action@, response@) == Ok::<JsonModel, AnkiErrorModel>(json@),
            Err(error) => result_in(action@, response@) == Err::<JsonModel, AnkiErrorModel>(
                error@,
            ),
        },
{
    match read_error(response) {
        Some(error) => Err(AnkiError::Refused(action.to_owned(), error)),
        None => match response.get("result") {
            Some(result) => Ok(result.clone()),
            None => Ok(Json::Null),
        },
    }
}

/// The first value from `start` on that is not a natural number.
pub open spec fn first_other(values: Seq<JsonModel>, start: int) -> Option<int>
    decreases values.len() - start,
{
    if start >= values.len() {
        None
    } else if values[start] is Number {
        first_other(values, start + 1)
    } else {
        Some(start)
    }
}

/// The numbers of the notes that were added.
pub open spec fn ids_in(result: JsonModel, expected: nat) -> Result<Seq<u64>, AnkiErrorModel> {
    match result {
        JsonModel::List(values) => match first_other(values, 0) {
            Some(i) => Err(AnkiErrorModel::NoNoteId(i as nat)),
            None => if values.len() != expected {
                Err(AnkiErrorModel::WrongCount(ListReply::AddNotes, values.len(), expected))
            } else {
                Ok(values.map_values(|value: JsonModel| value->Number_0))
            },
        },
        _ => Err(AnkiErrorModel::NotAList(ListReply::AddNotes)),
    }
}

/// Reads the numbers of the notes that were added.
pub fn read_added_ids(result: &Json, expected: usize) -> (ids: Result<Vec<u64>, AnkiError>)
    ensures
        match ids {
            Ok(list) => ids_in(result@, expected as nat) == Ok::<Seq<u64>, AnkiErrorModel>(list@),
            Err(error) => ids_in(result@, expected as nat) == Err::<Seq<u64>, AnkiErrorModel>(
                error@,
            ),
        },
{
    match result.as_array() {
        None => Err(AnkiError::NotAList(ListReply::AddNotes)),
        Some(values) => {
            let ghost all = json::json_models(values@);
            let mut ids: Vec<u64> = Vec::new();
            for i in 0..values.len()
                invariant
                    all == json::json_models(values@),
                    result@ == JsonModel::List(all),
                    first_other(all, 0) == first_other(all, i as int),
                    ids@ == all.take(i as int).map_values(|value: JsonModel| value->Number_0),
            {
                assert(all[i as int] == values@[i as int]@);
                match values[i].as_u64() {
                    Some(id) => {
                        ids.push(id);
                        assert(ids@ =~= all.take(i + 1).map_values(
                            |value: JsonModel| value->Number_0,
                        ));
                    },
                    None => {
                        return Err(AnkiError::NoNoteId(i));
                    },
                }
            }
            assert(all.take(all.len() as int) == all);
            if ids.len() != expected {
                return Err(AnkiError::WrongCount(ListReply::AddNotes, ids.len(), expected));
            }
            Ok(ids)
        },
    }
}

/// Reads the number of a note that was added.
pub fn read_added_id(result: &Json) -> (id: Result<u64, AnkiError>)
    ensures
        match (result@, id) {
            (JsonModel::Number(n), Ok(id)) => id == n,
            (JsonModel::Number(_), Err(_)) => false,
            (_, Ok(_)) => false,
            (_, Err(error)) => error@ == AnkiErrorModel::NotANumber,
        },
{
    match result.as_u64() {
        Some(id) => Ok(id),
        None => Err(AnkiError::NotANumber),
    }
}

/// The outcomes of several actions: for each nothing, or an error.
pub open spec fn outcomes_in(result: JsonModel, expected: nat) -> Result<
    Seq<Option<Seq<char>>>,
    AnkiErrorModel,
> {
    match result {
        JsonModel::List(values) => if values.len() != expected {
            Err(AnkiErrorModel::WrongCount(ListReply::Multi, values.len(), expected))
        } else {
            Ok(values.map_values(|value: JsonModel| error_in(value)))
        },
        _ => Err(AnkiErrorModel::NotAList(ListReply::Multi)),
    }
}

/// What a list of outcomes says.
pub open spec fn outcome_models(outcomes: Seq<Option<String>>) -> Seq<Option<Seq<char>>> {
    Seq::new(outcomes.len(), |i: int| text::opt_text(outcomes[i]))
}

/// Reads the outcomes of several actions.
pub fn multi_action_errors(result: &Json, expected: usize) -> (outcomes: Result<
    Vec<Option<String>>,
    AnkiError,
>)
    ensures
        match outcomes {
            Ok(list) => outcomes_in(result@, expected as nat) == Ok::<
                Seq<Option<Seq<char>>>,
                AnkiErrorModel,
            >(outcome_models(list@)),
            Err(error) => outcomes_in(result@, expected as nat) == Err::<
                Seq<Option<Seq<char>>>,
                AnkiErrorModel,
            >(error@),
        },
{
    match result.as_array() {
        None => Err(AnkiError::NotAList(ListReply::Multi)),
        Some(values) => {
            if values.len() != expected {
                return Err(AnkiError::WrongCount(ListReply::Multi, values.len(), expected));
            }
            let ghost all = json::json_models(values@).map_values(
                |value: JsonModel| error_in(value),
            );
            let mut outcomes: Vec<Option<String>> = Vec::new();
            for i in 0..values.len()
                invariant
                    all == json::json_models(values@).map_values(
                        |value: JsonModel| error_in(value),
                    ),
                    outcome_models(outcomes@) == all.take(i as int),
            {
                let ghost before = outcomes@;
                outcomes.push(read_error(&values[i]));
                assert(all[i as int] == error_in(values@[i as int]@));
                assert(outcome_models(outcomes@) =~= outcome_models(before).push(all[i as int]));
                assert(all.take(i + 1) =~= all.take(i as int).push(all[i as int]));
            }
            assert(all.take(all.len() as int) == all);
            Ok(outcomes)
        },
    }
}

/// The cards of a note that a value speaks of.
pub open spec fn cards_in(info: JsonModel) -> Seq<JsonModel> {
    match json::field_of(info, "cards"@) {
        Some(JsonModel::List(cards)) => cards,
        _ => Seq::empty(),
    }
}

/// Adds the cards of a note that a value speaks of to a list.
fn add_cards(list: &mut Vec<Json>, info: &Json)
    ensures
        json::json_models(final(list)@) == json::json_models(old(list)@) + cards_in(info@),
{
    if let Some(value) = info.get("cards") {
        if let Some(cards) = value.as_array() {
            let ghost all = json::json_models(cards@);
            for i in 0..cards.len()
                invariant
                    all == json::json_models(cards@),
                    json::json_models(list@) == json::json_models(old(list)@) + all.take(i as int),
            {
                let ghost before = list@;
                list.push(cards[i].clone());
                assert(all[i as int] == cards@[i as int]@);
                assert(json::json_models(list@) =~= json::json_models(before).push(all[i as int]));
                assert(all.take(i + 1) =~= all.take(i as int).push(all[i as int]));
            }
            assert(all.take(all.len() as int) == all);
            return ;
        }
    }
    assert(json::json_models(list@) =~= json::json_models(old(list)@) + cards_in(info@));
}

/// The first value of a list. What is not a list, or is empty, gives `null`.
pub open spec fn first_of(info: JsonModel) -> JsonModel {
    match info {
        JsonModel::List(values) => if values.len() > 0 {
            values[0]
        } else {
            JsonModel::Null
        },
        _ => JsonModel::Null,
    }
}

/// The request that takes the cards of one note to a deck. A note without cards needs none.
pub fn deck_change_of_note(info: &Json, deck: &str) -> (body: Option<Json>)
    ensures
        match body {
            Some(json) => cards_in(first_of(info@)).len() > 0 && json@ == deck_change_model(
                cards_in(first_of(info@)),
                deck@,
            ),
            None => cards_in(first_of(info@)).len() == 0,
        },
{
    let mut cards: Vec<Json> = Vec::new();
    assert(json::json_models(cards@) =~= Seq::<JsonModel>::empty());
    if let Some(values) = info.as_array() {
        if values.len() > 0 {
            assert(json::json_models(values@)[0] == values@[0]@);
            add_cards(&mut cards, &values[0]);
        }
    }
    assert(json::json_models(cards@) =~= cards_in(first_of(info@)));
    assert(cards@.len() == json::json_models(cards@).len());
    if cards.len() == 0 {
        None
    } else {
        Some(deck_change_json(cards, deck))
    }
}

/// The cards of those of the first `count` notes that go to a deck.
pub open spec fn cards_for(
    moves: Seq<(u64, Seq<char>)>,
    infos: Seq<JsonModel>,
    deck: Seq<char>,
    count: nat,
) -> Seq<JsonModel>
    decreases count,
{
    if count == 0 {
        Seq::empty()
    } else {
        let front = cards_for(moves, infos, deck, (count - 1) as nat);
        if moves[count - 1].1 == deck {
            front + cards_in(infos[count - 1])
        } else {
            front
        }
    }
}

/// The changes of some decks. A deck that no card goes to is left out.
pub open spec fn deck_changes(
    decks: Seq<Seq<char>>,
    moves: Seq<(u64, Seq<char>)>,
    infos: Seq<JsonModel>,
) -> Seq<JsonModel>
    decreases decks.len(),
{
    if decks.len() == 0 {
        Seq::empty()
    } else {
        let front = deck_changes(decks.drop_last(), moves, infos);
        let cards = cards_for(moves, infos, decks.last(), moves.len());
        if cards.len() == 0 {
            front
        } else {
            front.push(deck_change_model(cards, decks.last()))
        }
    }
}

/// What a list of notes and their decks says.
pub open spec fn move_models(list: Seq<(u64, String)>) -> Seq<(u64, Seq<char>)> {
    Seq::new(list.len(), |i: int| (list[i].0, list[i].1@))
}

/// The changes by which some notes go to their decks: one for each deck, with the cards of all
/// its notes.
pub open spec fn moves_in(moves: Seq<(u64, Seq<char>)>, info: JsonModel) -> Result<
    Seq<JsonModel>,
    AnkiErrorModel,
> {
    match info {
        JsonModel::List(infos) => if infos.len() != moves.len() {
            Err(AnkiErrorModel::WrongCount(ListReply::NotesInfo, infos.len(), moves.len()))
        } else {
            Ok(
                deck_changes(
                    card_note::distinct(
                        moves.map_values(|m: (u64, Seq<char>)| m.1),
                    ),
                    moves,
                    infos,
                ),
            )
        },
        _ => Err(AnkiErrorModel::NotAList(ListReply::NotesInfo)),
    }
}

/// Several actions in one request, and how many they are.
#[derive(Debug)]
pub struct MultiRequest {
    pub body: Json,
    pub count: usize,
}

/// The request that takes some notes to their decks, by what is known of their cards. Without
/// cards there is none.
pub fn read_moves(moves: &Vec<(u64, String)>, info: &Json) -> (request: Result<
    Option<MultiRequest>,
    AnkiError,
>)
    ensures
        match request {
            Ok(request) => moves_in(move_models(moves@), info@) matches Ok(actions) && match request {
                Some(multi) => actions.len() > 0 && multi.count == actions.len() && multi.body@
                    == multi_model(actions),
                None => actions.len() == 0,
            },
            Err(error) => moves_in(move_models(moves@), info@) == Err::<
                Seq<JsonModel>,
                AnkiErrorModel,
            >(error@),
        },
{
    let infos = match info.as_array() {
        None => {
            return Err(AnkiError::NotAList(ListReply::NotesInfo));
        },
        Some(infos) => infos,
    };
    if infos.len() != moves.len() {
        return Err(AnkiError::WrongCount(ListReply::NotesInfo, infos.len(), moves.len()));
    }
    let ghost move_list = move_models(moves@);
    let ghost info_list = json::json_models(infos@);
    let ghost names = move_list.map_values(|m: (u64, Seq<char>)| m.1);
    let mut all_decks: Vec<String> = Vec::new();
    for i in 0..moves.len()
        invariant
            move_list == move_models(moves@),
            names == move_list.map_values(|m: (u64, Seq<char>)| m.1),
            text::texts(all_decks@) == names.take(i as int),
    {
        let ghost before = all_decks@;
        all_decks.push(moves[i].1.clone());
        assert(names[i as int] == moves@[i as int].1@);
        assert(text::texts(all_decks@) =~= text::texts(before).push(names[i as int]));
        assert(names.take(i + 1) =~= names.take(i as int).push(names[i as int]));
    }
    assert(names.take(names.len() as int) == names);
    let decks = card_note::dedup_preserve_order(all_decks);
    let ghost deck_list = card_note::distinct(names);
    let mut actions: Vec<Json> = Vec::new();
    assert(json::json_models(actions@) =~= deck_changes(
        deck_list.take(0),
        move_list,
        info_list,
    ));
    for i in 0..decks.len()
        invariant
            text::texts(decks@) == deck_list,
            move_list == move_models(moves@),
            info_list == json::json_models(infos@),
            infos@.len() == moves@.len(),
            json::json_models(actions@) == deck_changes(
                deck_list.take(i as int),
                move_list,
                info_list,
            ),
    {
        let ghost deck = decks@[i as int]@;
        assert(deck_list.take(i + 1).drop_last() == deck_list.take(i as int));
        assert(deck_list.take(i + 1).last() == deck);
        let mut cards: Vec<Json> = Vec::new();
        assert(json::json_models(cards@) =~= Seq::<JsonModel>::empty());
        for j in 0..moves.len()
            invariant
                i < decks@.len(),
                deck == decks@[i as int]@,
                move_list == move_models(moves@),
                info_list == json::json_models(infos@),
                infos@.len() == moves@.len(),
                json::json_models(cards@) == cards_for(move_list, info_list, deck, j as nat),
        {
            assert(move_list[j as int].1 == moves@[j as int].1@);
            assert(info_list[j as int] == infos@[j as int]@);
            if chars::same_text(moves[j].1.as_str(), decks[i].as_str()) {
                add_cards(&mut cards, &infos[j]);
            }
        }
        assert(cards@.len() == json::json_models(cards@).len());
        if cards.len() > 0 {
            let ghost before = actions@;
            let ghost card_list = json::json_models(cards@);
            actions.push(deck_change_json(cards, decks[i].as_str()));
            assert(json::json_models(actions@) =~= json::json_models(before).push(
                deck_change_model(card_list, deck),
            ));
        }
    }
    assert(deck_list.take(deck_list.len() as int) == deck_list);
    assert(actions@.len() == json::json_models(actions@).len());
    if actions.len() == 0 {
        return Ok(None);
    }
    let count = actions.len();
    Ok(Some(MultiRequest { body: multi_json(actions), count }))
}

/// The first error among some outcomes, from `start` on.
pub open spec fn first_error(outcomes: Seq<Option<Seq<char>>>, start: int) -> Option<Seq<char>>
    decreases outcomes.len() - start,
{
    if start >= outcomes.len() {
        None
    } else if outcomes[start] is Some {
        outcomes[start]
    } else {
        first_error(outcomes, start + 1)
    }
}

/// Tells whether all decks could be changed.
pub fn check_deck_changes(outcomes: &Vec<Option<String>>) -> (result: Result<(), AnkiError>)
    ensures
        match (first_error(outcome_models(outcomes@), 0), result) {
            (Some(error), Err(e)) => e@ == AnkiErrorModel::DeckChange(error),
            (None, Ok(())) => true,
            _ => false,
        },
{
    let ghost all = outcome_models(outcomes@);
    for i in 0..outcomes.len()
        invariant
            all == outcome_models(outcomes@),
            first_error(all, 0) == first_error(all, i as int),
    {
        assert(all[i as int] == text::opt_text(outcomes@[i as int]));
        if let Some(error) = &outcomes[i] {
            return Err(AnkiError::DeckChange(error.clone()));
        }
    }
    Ok(())
}

// ── Laws ─────────────────────────────────────────────────────────────────────

/// Each card of each note goes to the deck of the note: it is among the cards of the change of
/// that deck.
pub proof fn law_cards_go_to_the_deck_of_their_note(
    moves: Seq<(u64, Seq<char>)>,
    infos: Seq<JsonModel>,
    i: int,
    card: JsonModel,
)
    requires
        infos.len() == moves.len(),
        0 <= i < moves.len(),
        cards_in(infos[i]).contains(card),
    ensures
        cards_for(moves, infos, moves[i].1, moves.len()).contains(card),
        moves_in(moves, JsonModel::List(infos))->Ok_0.contains(
            deck_change_model(
                cards_for(moves, infos, moves[i].1, moves.len()),
                moves[i].1,
            ),
        ),
{
    let deck = moves[i].1;
    let decks = moves.map_values(|m: (u64, Seq<char>)| m.1);
    lemma_cards_for(moves, infos, i, card, moves.len());
    assert(decks[i] == deck);
    card_note::lemma_distinct(decks);
    lemma_deck_changes(card_note::distinct(decks), moves, infos, deck);
}

proof fn lemma_cards_for(
    moves: Seq<(u64, Seq<char>)>,
    infos: Seq<JsonModel>,
    i: int,
    card: JsonModel,
    count: nat,
)
    requires
        0 <= i < count <= moves.len(),
        cards_in(infos[i]).contains(card),
    ensures
        cards_for(moves, infos, moves[i].1, count).contains(card),
    decreases count,
{
    let deck = moves[i].1;
    let front = cards_for(moves, infos, deck, (count - 1) as nat);
    let all = cards_for(moves, infos, deck, count);
    if i == count - 1 {
        let k = choose|k: int| 0 <= k < cards_in(infos[i]).len() && cards_in(infos[i])[k] == card;
        assert(all[front.len() + k] == card);
    } else {
        lemma_cards_for(moves, infos, i, card, (count - 1) as nat);
        let k = choose|k: int| 0 <= k < front.len() && front[k] == card;
        assert(all[k] == card);
    }
}

proof fn lemma_deck_changes(
    decks: Seq<Seq<char>>,
    moves: Seq<(u64, Seq<char>)>,
    infos: Seq<JsonModel>,
    deck: Seq<char>,
)
    requires
        decks.contains(deck),
        cards_for(moves, infos, deck, moves.len()).len() > 0,
    ensures
        deck_changes(decks, moves, infos).contains(
            deck_change_model(cards_for(moves, infos, deck, moves.len()), deck),
        ),
    decreases decks.len(),
{
    let change = deck_change_model(cards_for(moves, infos, deck, moves.len()), deck);
    let front = deck_changes(decks.drop_last(), moves, infos);
    let all = deck_changes(decks, moves, infos);
    if decks.last() == deck {
        assert(all[all.len() - 1] == change);
    } else {
        let i = choose|i: int| 0 <= i < decks.len() && decks[i] == deck;
        assert(decks.drop_last()[i] == deck);
        lemma_deck_changes(decks.drop_last(), moves, infos, deck);
        let k = choose|k: int| 0 <= k < front.len() && front[k] == change;
        assert(all[k] == change);
    }
}

} // verus!
