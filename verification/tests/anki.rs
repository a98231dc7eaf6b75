use bear_anki_sync::anki::{
    check_deck_changes, deck_change_of_note, multi_action_errors, read_added_id, read_added_ids,
    read_moves, read_response, AnkiClient, AnkiError, AnkiNote, ListReply,
};
use bear_anki_sync::json::Json;

fn text(content: &str) -> Json {
    Json::Text(content.to_owned())
}

fn object(members: Vec<(&str, Json)>) -> Json {
    Json::Object(
        members
            .into_iter()
            .map(|(name, value)| (name.to_owned(), value))
            .collect(),
    )
}

fn action(name: &str, params: Json) -> Json {
    object(vec![
        ("action", text(name)),
        ("version", Json::Number(6)),
        ("params", params),
    ])
}

fn note(deck: &str) -> AnkiNote {
    AnkiNote {
        deck: deck.to_owned(),
        model: "Basic".to_owned(),
        fields: vec![
            ("Front".to_owned(), "Q".to_owned()),
            ("Back".to_owned(), "A".to_owned()),
        ],
        tags: vec!["t".to_owned()],
    }
}

fn fields() -> Json {
    object(vec![("Front", text("Q")), ("Back", text("A"))])
}

fn note_json(deck: &str) -> Json {
    object(vec![
        ("deckName", text(deck)),
        ("modelName", text("Basic")),
        ("fields", fields()),
        ("tags", Json::List(vec![text("t")])),
        ("options", object(vec![("allowDuplicate", Json::Bool(false))])),
    ])
}

fn changes(id: u64) -> Json {
    object(vec![(
        "note",
        object(vec![
            ("id", Json::Number(id)),
            ("fields", fields()),
            ("tags", Json::List(vec![text("t")])),
        ]),
    )])
}

#[test]
fn requests_name_their_action() {
    let client = AnkiClient::new("http://localhost:1");
    assert_eq!(client.url(), "http://localhost:1");
    assert_eq!(
        client.check_connection(),
        action("requestPermission", object(vec![]))
    );
    assert_eq!(
        client.create_deck("A::B"),
        action("createDeck", object(vec![("deck", text("A::B"))]))
    );
    assert_eq!(
        client.add_note(&note("D")),
        action("addNote", object(vec![("note", note_json("D"))]))
    );
    assert_eq!(
        client.delete_notes(&[1, 2]),
        action(
            "deleteNotes",
            object(vec![(
                "notes",
                Json::List(vec![Json::Number(1), Json::Number(2)])
            )])
        )
    );
    assert_eq!(
        client.store_media_file("a.png", "AQ=="),
        action(
            "storeMediaFile",
            object(vec![("filename", text("a.png")), ("data", text("AQ=="))])
        )
    );
}

#[test]
fn notes_are_added_together() {
    let client = AnkiClient::new("u");
    assert_eq!(client.add_notes(&vec![]), None);
    assert_eq!(
        client.add_notes(&vec![note("D"), note("E")]),
        Some(action(
            "addNotes",
            object(vec![(
                "notes",
                Json::List(vec![note_json("D"), note_json("E")])
            )])
        ))
    );
}

#[test]
fn notes_are_updated_alone_and_together() {
    let client = AnkiClient::new("u");
    let n = note("D");
    assert_eq!(
        client.update_note(7, &n.fields, &n.tags),
        action("updateNote", changes(7))
    );
    assert_eq!(client.update_notes(&vec![]), None);
    assert_eq!(
        client.update_notes(&vec![(7, note("D")), (8, note("E"))]),
        Some(action(
            "multi",
            object(vec![(
                "actions",
                Json::List(vec![
                    action("updateNote", changes(7)),
                    action("updateNote", changes(8)),
                ])
            )])
        ))
    );
}

#[test]
fn replies_give_their_result_or_their_error() {
    let ok = object(vec![("result", Json::Number(1)), ("error", Json::Null)]);
    assert_eq!(read_response("x", &ok), Ok(Json::Number(1)));
    let empty = object(vec![("result", Json::Bool(true)), ("error", text(""))]);
    assert_eq!(read_response("x", &empty), Ok(Json::Bool(true)));
    let bad = object(vec![("result", Json::Null), ("error", text("no"))]);
    let error = read_response("x", &bad).unwrap_err();
    assert_eq!(error, AnkiError::Refused("x".to_owned(), "no".to_owned()));
    assert_eq!(error.message(), "AnkiConnect error for action x: no");
    assert_eq!(read_response("x", &text("odd")), Ok(Json::Null));
}

#[test]
fn added_notes_have_numbers() {
    let ids = Json::List(vec![Json::Number(5), Json::Number(6)]);
    assert_eq!(read_added_ids(&ids, 2), Ok(vec![5, 6]));
    let error = read_added_ids(&ids, 3).unwrap_err();
    assert_eq!(error, AnkiError::WrongCount(ListReply::AddNotes, 2, 3));
    assert_eq!(
        error.message(),
        "addNotes returned 2 note IDs for 3 requested notes"
    );
    let hole = Json::List(vec![Json::Number(5), Json::Null]);
    let error = read_added_ids(&hole, 2).unwrap_err();
    assert_eq!(error, AnkiError::NoNoteId(1));
    assert_eq!(
        error.message(),
        "addNotes did not return a note ID at index 1"
    );
    let error = read_added_ids(&Json::Null, 0).unwrap_err();
    assert_eq!(error, AnkiError::NotAList(ListReply::AddNotes));
    assert_eq!(error.message(), "addNotes did not return an array");
    assert_eq!(read_added_id(&Json::Number(9)), Ok(9));
    let error = read_added_id(&Json::OtherNumber("-1".to_owned())).unwrap_err();
    assert_eq!(error, AnkiError::NotANumber);
    assert_eq!(error.message(), "addNote did not return a numeric note ID");
}

#[test]
fn several_actions_have_several_outcomes() {
    let reply = Json::List(vec![
        Json::Null,
        object(vec![("error", text("gone"))]),
        object(vec![("error", Json::Null)]),
        object(vec![("error", text(""))]),
    ]);
    assert_eq!(
        multi_action_errors(&reply, 4),
        Ok(vec![None, Some("gone".to_owned()), None, None])
    );
    let error = multi_action_errors(&reply, 1).unwrap_err();
    assert_eq!(
        error.message(),
        "multi returned 4 results for 1 requested actions"
    );
    let error = multi_action_errors(&Json::Bool(true), 1).unwrap_err();
    assert_eq!(error.message(), "multi did not return an array");
}

fn info(cards: Vec<u64>) -> Json {
    object(vec![(
        "cards",
        Json::List(cards.into_iter().map(Json::Number).collect()),
    )])
}

fn deck_change(cards: Vec<u64>, deck: &str) -> Json {
    action(
        "changeDeck",
        object(vec![
            (
                "cards",
                Json::List(cards.into_iter().map(Json::Number).collect()),
            ),
            ("deck", text(deck)),
        ]),
    )
}

#[test]
fn a_note_goes_to_its_deck() {
    let client = AnkiClient::new("u");
    assert_eq!(
        client.move_note_to_deck(3),
        action(
            "notesInfo",
            object(vec![("notes", Json::List(vec![Json::Number(3)]))])
        )
    );
    assert_eq!(
        deck_change_of_note(&Json::List(vec![info(vec![1, 2])]), "D"),
        Some(deck_change(vec![1, 2], "D"))
    );
    assert_eq!(
        deck_change_of_note(&Json::List(vec![info(vec![])]), "D"),
        None
    );
    assert_eq!(deck_change_of_note(&Json::Null, "D"), None);
}

#[test]
fn notes_go_to_their_decks_together() {
    let client = AnkiClient::new("u");
    let moves = vec![
        (1, "B".to_owned()),
        (2, "A".to_owned()),
        (3, "B".to_owned()),
        (4, "C".to_owned()),
    ];
    assert_eq!(client.move_notes_to_decks(&vec![]), None);
    assert_eq!(
        client.move_notes_to_decks(&moves[..1].to_vec()),
        Some(action(
            "notesInfo",
            object(vec![("notes", Json::List(vec![Json::Number(1)]))])
        ))
    );
    let infos = Json::List(vec![
        info(vec![11]),
        info(vec![21, 22]),
        info(vec![31]),
        object(vec![]),
    ]);
    let request = read_moves(&moves, &infos).unwrap().unwrap();
    assert_eq!(request.count, 2);
    assert_eq!(
        request.body,
        action(
            "multi",
            object(vec![(
                "actions",
                Json::List(vec![
                    deck_change(vec![11, 31], "B"),
                    deck_change(vec![21, 22], "A"),
                ])
            )])
        )
    );
    let none = read_moves(&vec![(4, "C".to_owned())], &Json::List(vec![Json::Null]));
    assert!(none.unwrap().is_none());
    let error = read_moves(&moves, &Json::List(vec![])).unwrap_err();
    assert_eq!(
        error.message(),
        "notesInfo returned 0 entries for 4 requested notes"
    );
    let error = read_moves(&moves, &Json::Null).unwrap_err();
    assert_eq!(error.message(), "notesInfo did not return an array");
}

#[test]
fn the_first_failed_deck_is_told() {
    assert_eq!(check_deck_changes(&vec![None, None]), Ok(()));
    let error = check_deck_changes(&vec![None, Some("a".to_owned()), Some("b".to_owned())])
        .unwrap_err();
    assert_eq!(error, AnkiError::DeckChange("a".to_owned()));
    assert_eq!(error.message(), "AnkiConnect error changing deck: a");
}

#[test]
fn failures_to_connect_are_told_apart() {
    let client = AnkiClient::new("http://x");
    let error = client.request_failure("os error: Connection REFUSED");
    assert_eq!(error, AnkiError::Unreachable("http://x".to_owned()));
    assert_eq!(
        error.message(),
        "could not connect to Anki at http://x\nMake sure Anki is running and the AnkiConnect plugin is installed.\nInstall it from: https://ankiweb.net/shared/info/2055492159"
    );
    let error = client.request_failure("timed out");
    assert_eq!(error, AnkiError::RequestFailed("timed out".to_owned()));
    assert_eq!(error.message(), "AnkiConnect request failed: timed out");
    assert_eq!(
        client.request_failure("Connect error"),
        AnkiError::Unreachable("http://x".to_owned())
    );
}

#[test]
fn the_last_member_of_a_name_counts() {
    let json = object(vec![("a", Json::Number(1)), ("a", Json::Number(2))]);
    assert_eq!(json.get("a"), Some(&Json::Number(2)));
    assert_eq!(json.get("b"), None);
    assert_eq!(json.clone(), json);
}
