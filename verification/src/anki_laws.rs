//! What holds of the requests to Anki and of how its replies are read.

use vstd::prelude::*;

use crate::anki;
use crate::anki::{AnkiErrorModel, ListReply, NoteModel};
use crate::card_note;
use crate::json;
use crate::json::JsonModel;
use crate::lists;
use crate::run_laws;
use crate::text;

verus! {

// ── Values ───────────────────────────────────────────────────────────────────

/// The last member of a name is the one that counts. What is no object has no members.
pub proof fn law_the_last_member_of_a_name_counts(
    members: Seq<(Seq<char>, JsonModel)>,
    name: Seq<char>,
    other: Seq<char>,
    value: JsonModel,
)
    requires
        name != other,
    ensures
        json::field_of(JsonModel::Object(members.push((name, value))), name) == Some(value),
        json::field_of(JsonModel::Object(members.push((name, value))), other) == json::field_of(
            JsonModel::Object(members),
            other,
        ),
        json::field_of(JsonModel::Object(Seq::empty()), name) is None,
        json::field_of(JsonModel::List(seq![value]), name) is None,
        json::field_of(JsonModel::Text(name), name) is None,
        json::field_of(JsonModel::Null, name) is None,
{
    assert(members.push((name, value)).drop_last() =~= members);
}

/// Texts and numbers stand in lists as they are, in their order.
pub proof fn law_lists_hold_the_values_in_order(texts: Seq<Seq<char>>, numbers: Seq<u64>, i: int)
    requires
        0 <= i,
    ensures
        json::text_values(texts).len() == texts.len(),
        json::number_values(numbers).len() == numbers.len(),
        i < texts.len() ==> json::text_values(texts)[i] == JsonModel::Text(texts[i]),
        i < numbers.len() ==> json::number_values(numbers)[i] == JsonModel::Number(numbers[i]),
{
}

// ── Requests ─────────────────────────────────────────────────────────────────

/// The names of the members of requests differ.
proof fn lemma_names()
    ensures
        "action"@ != "version"@ && "action"@ != "params"@ && "version"@ != "params"@,
        "deckName"@ != "modelName"@ && "deckName"@ != "fields"@ && "deckName"@ != "tags"@
            && "deckName"@ != "options"@,
        "modelName"@ != "fields"@ && "modelName"@ != "tags"@ && "modelName"@ != "options"@,
        "fields"@ != "tags"@ && "fields"@ != "options"@ && "tags"@ != "options"@,
        "id"@ != "fields"@ && "id"@ != "tags"@,
        "cards"@ != "deck"@,
{
    reveal_strlit("action");
    reveal_strlit("version");
    reveal_strlit("params");
    reveal_strlit("deckName");
    reveal_strlit("modelName");
    reveal_strlit("fields");
    reveal_strlit("tags");
    reveal_strlit("options");
    reveal_strlit("id");
    reveal_strlit("cards");
    reveal_strlit("deck");
    assert("action"@[0] == 'a' && "version"@[0] == 'v' && "params"@[0] == 'p');
    assert("deckName"@[0] == 'd' && "modelName"@[0] == 'm' && "fields"@[0] == 'f' && "tags"@[0]
        == 't' && "options"@[0] == 'o' && "id"@[0] == 'i');
    assert("cards"@[0] == 'c' && "deck"@[0] == 'd');
}

/// A request names its action, the version of the protocol and its parameters, and nothing else.
pub proof fn law_requests_name_their_action(action: Seq<char>, params: JsonModel)
    ensures
        json::field_of(anki::action_model(action, params), "action"@) == Some(
            JsonModel::Text(action),
        ),
        json::field_of(anki::action_model(action, params), "version"@) == Some(
            JsonModel::Number(6),
        ),
        json::field_of(anki::action_model(action, params), "params"@) == Some(params),
        anki::action_model(action, params)->Object_0.len() == 3,
{
    lemma_names();
    let all = anki::action_model(action, params)->Object_0;
    reveal_with_fuel(json::member_of, 4);
    assert(all.drop_last().last() == all[1]);
    assert(all.drop_last().drop_last().last() == all[0]);
}

/// A note that is to be added is sent with its deck, its type, its fields and its tags, and
/// duplicates are refused.
pub proof fn law_added_notes_are_sent_whole(note: NoteModel)
    ensures
        ({
            let sent = anki::note_json_model(note);
            &&& json::field_of(sent, "deckName"@) == Some(JsonModel::Text(note.deck))
            &&& json::field_of(sent, "modelName"@) == Some(JsonModel::Text(note.model))
            &&& json::field_of(sent, "fields"@) == Some(anki::fields_model(note.fields))
            &&& json::field_of(sent, "tags"@) == Some(
                JsonModel::List(json::text_values(note.tags)),
            )
            &&& json::field_of(sent, "options"@) matches Some(options) && json::field_of(
                options,
                "allowDuplicate"@,
            ) == Some(JsonModel::Bool(false))
            &&& sent->Object_0.len() == 5
        }),
{
    lemma_names();
    let all = anki::note_json_model(note)->Object_0;
    reveal_with_fuel(json::member_of, 6);
    assert(all.drop_last().last() == all[3]);
    assert(all.drop_last().drop_last().last() == all[2]);
    assert(all.drop_last().drop_last().drop_last().last() == all[1]);
    assert(all.drop_last().drop_last().drop_last().drop_last().last() == all[0]);
}

/// The new content of a note is sent with its number, its fields and its tags.
pub proof fn law_updated_notes_are_sent_whole(
    id: u64,
    fields: Seq<(Seq<char>, Seq<char>)>,
    tags: Seq<Seq<char>>,
)
    ensures
        json::field_of(anki::changes_model(id, fields, tags), "note"@) matches Some(note) && {
            &&& json::field_of(note, "id"@) == Some(JsonModel::Number(id))
            &&& json::field_of(note, "fields"@) == Some(anki::fields_model(fields))
            &&& json::field_of(note, "tags"@) == Some(JsonModel::List(json::text_values(tags)))
            &&& note->Object_0.len() == 3
        },
{
    lemma_names();
    let note = JsonModel::Object(
        seq![
            ("id"@, JsonModel::Number(id)),
            ("fields"@, anki::fields_model(fields)),
            ("tags"@, JsonModel::List(json::text_values(tags))),
        ],
    );
    let all = note->Object_0;
    assert(json::field_of(anki::changes_model(id, fields, tags), "note"@) == Some(note));
    reveal_with_fuel(json::member_of, 4);
    assert(all.drop_last().last() == all[1]);
    assert(all.drop_last().drop_last().last() == all[0]);
}

/// Each field of a note is sent under its name with its content, where no two have the same name.
pub proof fn law_fields_are_sent_under_their_names(fields: Seq<(Seq<char>, Seq<char>)>, i: int)
    requires
        0 <= i < fields.len(),
        forall|a: int, b: int|
            0 <= a < b < fields.len() ==> (#[trigger] fields[a]).0 != (#[trigger] fields[b]).0,
    ensures
        json::field_of(anki::fields_model(fields), fields[i].0) == Some(
            JsonModel::Text(fields[i].1),
        ),
        anki::fields_model(fields)->Object_0.len() == fields.len(),
    decreases fields.len(),
{
    let form = |f: (Seq<char>, Seq<char>)| (f.0, JsonModel::Text(f.1));
    let all = fields.map_values(form);
    let front = fields.drop_last();
    assert(all.drop_last() =~= front.map_values(form));
    assert(all.last() == (fields.last().0, JsonModel::Text(fields.last().1)));
    if i < front.len() {
        assert(fields[i].0 != fields[fields.len() - 1].0);
        law_fields_are_sent_under_their_names(front, i);
    }
}

/// The change of a deck names the deck and its cards; several actions go in one request, in their
/// order; requests about notes name their numbers.
pub proof fn law_deck_changes_name_the_deck(
    cards: Seq<JsonModel>,
    deck: Seq<char>,
    actions: Seq<JsonModel>,
    ids: Seq<u64>,
)
    ensures
        ({
            let change = anki::deck_change_model(cards, deck);
            &&& json::field_of(change, "action"@) == Some(JsonModel::Text("changeDeck"@))
            &&& json::field_of(change, "params"@) matches Some(params) && json::field_of(
                params,
                "cards"@,
            ) == Some(JsonModel::List(cards)) && json::field_of(params, "deck"@) == Some(
                JsonModel::Text(deck),
            )
        }),
        ({
            let multi = anki::multi_model(actions);
            &&& json::field_of(multi, "action"@) == Some(JsonModel::Text("multi"@))
            &&& json::field_of(multi, "params"@) matches Some(params) && json::field_of(
                params,
                "actions"@,
            ) == Some(JsonModel::List(actions))
        }),
        json::field_of(anki::note_ids_model(ids), "notes"@) == Some(
            JsonModel::List(json::number_values(ids)),
        ),
{
    lemma_names();
    let params = JsonModel::Object(
        seq![("cards"@, JsonModel::List(cards)), ("deck"@, JsonModel::Text(deck))],
    );
    law_requests_name_their_action("changeDeck"@, params);
    law_requests_name_their_action(
        "multi"@,
        JsonModel::Object(seq![("actions"@, JsonModel::List(actions))]),
    );
    let all = params->Object_0;
    reveal_with_fuel(json::member_of, 3);
    assert(all.drop_last().last() == all[0]);
}

// ── Failures ─────────────────────────────────────────────────────────────────

/// Anki is not running where one of two phrases stands anywhere in the reason of a failure, in
/// letters of either case, and only then; each other failure is told as it is.
pub proof fn law_failures_are_known_by_their_words(reason: Seq<char>, url: Seq<char>)
    ensures
        ({
            let lower = text::lowercase(reason);
            anki::failure_of(reason, url) == if run_laws::stands_in(lower, "connection refused"@)
                || run_laws::stands_in(lower, "connect error"@) {
                AnkiErrorModel::Unreachable(url)
            } else {
                AnkiErrorModel::RequestFailed(reason)
            }
        }),
{
    run_laws::lemma_stands_in(text::lowercase(reason), "connection refused"@);
    run_laws::lemma_stands_in(text::lowercase(reason), "connect error"@);
}

/// Errors tell the user what Anki said, what was asked for and what came.
pub proof fn law_errors_tell_what_went_wrong(
    action: Seq<char>,
    error: Seq<char>,
    got: nat,
    expected: nat,
)
    ensures
        anki::error_text(AnkiErrorModel::Refused(action, error))
            == "AnkiConnect error for action "@ + action + ": "@ + error,
        anki::error_text(AnkiErrorModel::RequestFailed(error)) == "AnkiConnect request failed: "@
            + error,
        anki::error_text(AnkiErrorModel::DeckChange(error)) == "AnkiConnect error changing deck: "@
            + error,
        text::starts_with(
            anki::error_text(AnkiErrorModel::Unreachable(error)),
            "could not connect to Anki at "@ + error + "\nMake sure Anki is running"@,
        ),
        anki::error_text(AnkiErrorModel::WrongCount(ListReply::AddNotes, got, expected))
            == "addNotes returned "@ + text::decimal(got) + " note IDs for "@ + text::decimal(
            expected,
        ) + " requested notes"@,
        anki::error_text(AnkiErrorModel::WrongCount(ListReply::NotesInfo, got, expected))
            == "notesInfo returned "@ + text::decimal(got) + " entries for "@ + text::decimal(
            expected,
        ) + " requested notes"@,
        anki::error_text(AnkiErrorModel::WrongCount(ListReply::Multi, got, expected))
            == "multi returned "@ + text::decimal(got) + " results for "@ + text::decimal(expected)
            + " requested actions"@,
        anki::error_text(AnkiErrorModel::NoNoteId(got))
            == "addNotes did not return a note ID at index "@ + text::decimal(got),
{
    reveal_strlit("\nMake sure Anki is running");
    reveal_strlit("\nMake sure Anki is running and the AnkiConnect plugin is installed.\nInstall it from: https://ankiweb.net/shared/info/2055492159");
    let start = "could not connect to Anki at "@ + error;
    let begin = "\nMake sure Anki is running"@;
    let whole = anki::error_text(AnkiErrorModel::Unreachable(error));
    assert(whole.subrange(0, (start + begin).len() as int) =~= start + begin);
}

// ── Replies ──────────────────────────────────────────────────────────────────

/// A reply with an error that is not empty is refused with it, whatever its result; each other
/// reply gives its result, and nothing where it has none.
pub proof fn law_replies_give_an_error_or_a_result(
    action: Seq<char>,
    response: JsonModel,
    error: Seq<char>,
)
    ensures
        json::field_of(response, "error"@) == Some(JsonModel::Text(error)) && error.len() > 0
            ==> anki::result_in(action, response) == Err::<JsonModel, AnkiErrorModel>(
            AnkiErrorModel::Refused(action, error),
        ),
        json::field_of(response, "error"@) == Some(JsonModel::Text(Seq::empty()))
            || json::field_of(response, "error"@) == Some(JsonModel::Null) || json::field_of(
            response,
            "error"@,
        ) is None ==> anki::result_in(action, response) == Ok::<JsonModel, AnkiErrorModel>(
            match json::field_of(response, "result"@) {
                Some(result) => result,
                None => JsonModel::Null,
            },
        ),
{
}

proof fn lemma_first_other(values: Seq<JsonModel>, start: int)
    requires
        0 <= start,
    ensures
        match anki::first_other(values, start) {
            Some(i) => start <= i < values.len() && !(values[i] is Number) && forall|j: int|
                start <= j < i ==> (#[trigger] values[j]) is Number,
            None => forall|j: int| start <= j < values.len() ==> (#[trigger] values[j]) is Number,
        },
    decreases values.len() - start,
{
    if start < values.len() && values[start] is Number {
        lemma_first_other(values, start + 1);
    }
}

/// The numbers of added notes are read where the reply is a list of numbers, one for each note:
/// they are those of the list, in its order. A value that is no number is told by the first place
/// of one; then a wrong count; and what is no list.
pub proof fn law_numbers_of_added_notes_are_read_in_order(
    ids: Seq<u64>,
    values: Seq<JsonModel>,
    expected: nat,
    i: int,
)
    requires
        0 <= i < values.len(),
        !(values[i] is Number),
        forall|j: int| 0 <= j < i ==> (#[trigger] values[j]) is Number,
    ensures
        anki::ids_in(JsonModel::List(json::number_values(ids)), ids.len()) == Ok::<
            Seq<u64>,
            AnkiErrorModel,
        >(ids),
        expected != ids.len() ==> anki::ids_in(JsonModel::List(json::number_values(ids)), expected)
            == Err::<Seq<u64>, AnkiErrorModel>(
            AnkiErrorModel::WrongCount(ListReply::AddNotes, ids.len(), expected),
        ),
        anki::ids_in(JsonModel::List(values), expected) == Err::<Seq<u64>, AnkiErrorModel>(
            AnkiErrorModel::NoNoteId(i as nat),
        ),
        anki::ids_in(JsonModel::Null, expected) == Err::<Seq<u64>, AnkiErrorModel>(
            AnkiErrorModel::NotAList(ListReply::AddNotes),
        ),
{
    let numbers = json::number_values(ids);
    lemma_first_other(numbers, 0);
    lemma_first_other(values, 0);
    assert(numbers.map_values(|value: JsonModel| value->Number_0) =~= ids);
}

/// The outcomes of several actions are read where the reply is a list with one value for each:
/// the error of each value, or none.
pub proof fn law_outcomes_are_read_in_order(values: Seq<JsonModel>, expected: nat, i: int)
    requires
        0 <= i < values.len(),
    ensures
        anki::outcomes_in(JsonModel::List(values), values.len()) matches Ok(outcomes)
            && outcomes.len() == values.len() && outcomes[i] == anki::error_in(values[i]),
        expected != values.len() ==> anki::outcomes_in(JsonModel::List(values), expected) == Err::<
            Seq<Option<Seq<char>>>,
            AnkiErrorModel,
        >(AnkiErrorModel::WrongCount(ListReply::Multi, values.len(), expected)),
        anki::outcomes_in(JsonModel::Null, expected) == Err::<
            Seq<Option<Seq<char>>>,
            AnkiErrorModel,
        >(AnkiErrorModel::NotAList(ListReply::Multi)),
{
}

/// The first error among some outcomes is told: one of them, with none before it. Where there is
/// none, all went well.
pub proof fn law_the_first_error_is_told(outcomes: Seq<Option<Seq<char>>>, start: int)
    requires
        0 <= start,
    ensures
        match anki::first_error(outcomes, start) {
            Some(error) => exists|i: int|
                start <= i < outcomes.len() && #[trigger] outcomes[i] == Some(error) && forall|j: int|
                    start <= j < i ==> (#[trigger] outcomes[j]) is None,
            None => forall|j: int| start <= j < outcomes.len() ==> (#[trigger] outcomes[j]) is None,
        },
    decreases outcomes.len() - start,
{
    if start < outcomes.len() {
        if outcomes[start] is Some {
            assert(outcomes[start] == Some(outcomes[start]->0));
        } else {
            law_the_first_error_is_told(outcomes, start + 1);
            if let Some(error) = anki::first_error(outcomes, start + 1) {
                let i = choose|i: int|
                    start + 1 <= i < outcomes.len() && #[trigger] outcomes[i] == Some(error)
                        && forall|j: int|
                        start + 1 <= j < i ==> (#[trigger] outcomes[j]) is None;
                assert(outcomes[i] == Some(error));
            }
        }
    }
}

// ── Moves ────────────────────────────────────────────────────────────────────

/// The cards of a note are those that the reply lists for it; a note that is not known has none.
pub proof fn law_notes_have_the_cards_of_the_reply(info: JsonModel, cards: Seq<JsonModel>)
    ensures
        json::field_of(info, "cards"@) == Some(JsonModel::List(cards)) ==> anki::cards_in(info)
            == cards,
        json::field_of(info, "cards"@) is None ==> anki::cards_in(info).len() == 0,
        anki::first_of(JsonModel::List(seq![info] + cards)) == info,
        anki::first_of(JsonModel::List(Seq::empty())) == JsonModel::Null,
        anki::cards_in(JsonModel::Null).len() == 0,
{
    assert((seq![info] + cards)[0] == info);
}

/// A change of a deck takes the cards of the notes that belong in it and of no other, in the order
/// of the notes.
pub proof fn law_changes_take_the_cards_of_their_notes(
    moves: Seq<(u64, Seq<char>)>,
    infos: Seq<JsonModel>,
    deck: Seq<char>,
    count: nat,
)
    requires
        count < moves.len(),
    ensures
        anki::cards_for(moves, infos, deck, 0) == Seq::<JsonModel>::empty(),
        anki::cards_for(moves, infos, deck, count + 1) == if moves[count as int].1 == deck {
            anki::cards_for(moves, infos, deck, count) + anki::cards_in(infos[count as int])
        } else {
            anki::cards_for(moves, infos, deck, count)
        },
{
}

/// Each change by which notes go to their decks is of the deck of one of them, with all cards of
/// that deck, of which there are some.
pub proof fn law_moves_change_no_other_deck(
    moves: Seq<(u64, Seq<char>)>,
    infos: Seq<JsonModel>,
    k: int,
)
    requires
        infos.len() == moves.len(),
        0 <= k < (anki::moves_in(moves, JsonModel::List(infos))->Ok_0).len(),
    ensures
        anki::moves_in(moves, JsonModel::List(infos)) is Ok,
        exists|i: int|
            0 <= i < moves.len() && anki::moves_in(moves, JsonModel::List(infos))->Ok_0[k]
                == anki::deck_change_model(
                anki::cards_for(moves, infos, (#[trigger] moves[i]).1, moves.len()),
                moves[i].1,
            ) && anki::cards_for(moves, infos, moves[i].1, moves.len()).len() > 0,
{
    let decks = moves.map_values(|m: (u64, Seq<char>)| m.1);
    let some = card_note::distinct(decks);
    card_note::lemma_distinct(decks);
    let deck = lemma_change_of(some, moves, infos, k);
    assert(decks.contains(deck));
    let i = choose|i: int| 0 <= i < decks.len() && decks[i] == deck;
    assert(moves[i].1 == deck);
}

proof fn lemma_change_of(
    decks: Seq<Seq<char>>,
    moves: Seq<(u64, Seq<char>)>,
    infos: Seq<JsonModel>,
    k: int,
) -> (deck: Seq<char>)
    requires
        0 <= k < anki::deck_changes(decks, moves, infos).len(),
    ensures
        decks.contains(deck),
        anki::deck_changes(decks, moves, infos)[k] == anki::deck_change_model(
            anki::cards_for(moves, infos, deck, moves.len()),
            deck,
        ),
        anki::cards_for(moves, infos, deck, moves.len()).len() > 0,
    decreases decks.len(),
{
    let front = anki::deck_changes(decks.drop_last(), moves, infos);
    assert(decks =~= decks.drop_last().push(decks.last()));
    lists::lemma_push_contains(decks.drop_last(), decks.last());
    if k < front.len() {
        lemma_change_of(decks.drop_last(), moves, infos, k)
    } else {
        decks.last()
    }
}

/// A reply about the cards of notes must be a list with one value for each of them.
pub proof fn law_moves_need_a_reply_for_each_note(
    moves: Seq<(u64, Seq<char>)>,
    infos: Seq<JsonModel>,
)
    ensures
        infos.len() != moves.len() ==> anki::moves_in(moves, JsonModel::List(infos)) == Err::<
            Seq<JsonModel>,
            AnkiErrorModel,
        >(AnkiErrorModel::WrongCount(ListReply::NotesInfo, infos.len(), moves.len())),
        anki::moves_in(moves, JsonModel::Null) == Err::<Seq<JsonModel>, AnkiErrorModel>(
            AnkiErrorModel::NotAList(ListReply::NotesInfo),
        ),
{
}

} // verus!
