use bear_anki_sync::commands::{
    anki_url, card_line, clear_state, cleared_line, deleted_line, list_lines, note_counts,
    nothing_to_reset_line, status_lines, summary_line, tracked_ids,
};
use bear_anki_sync::config::Config;
use bear_anki_sync::parser::{BearNote, Card, CardKind, NoteBody};
use bear_anki_sync::scope::SourceNote;
use bear_anki_sync::state::SyncState;
use bear_anki_sync::sync::SyncReport;
use bear_anki_sync::text_map::TextMap;

fn source(title: &str, text: &str) -> SourceNote {
    SourceNote {
        note: BearNote {
            identifier: "N".to_owned(),
            title: title.to_owned(),
            text: text.to_owned(),
            pinned: false,
            created_at: None,
            modified_at: None,
            tags: vec![],
        },
        body: NoteBody {
            deck_override: None,
            text: text.to_owned(),
        },
    }
}

#[test]
fn the_given_address_comes_first() {
    let mut config = Config::default();
    assert_eq!(anki_url(None, &config), "http://127.0.0.1:8765");
    config.anki_url = Some("http://b".to_owned());
    assert_eq!(anki_url(None, &config), "http://b");
    assert_eq!(anki_url(Some("http://a".to_owned()), &config), "http://a");
}

#[test]
fn runs_are_summed_up() {
    let report = SyncReport {
        added: 1,
        updated: 2,
        deleted: 3,
        skipped: 4,
    };
    assert_eq!(
        summary_line(&report, false),
        "Sync complete: 1 added, 2 updated, 3 deleted, 4 unchanged"
    );
    assert_eq!(
        summary_line(&report, true),
        "[dry-run] 1 to add, 2 to update, 3 to delete"
    );
}

#[test]
fn cards_are_listed_under_their_notes() {
    let notes = vec![
        source("One", "# One\n> [!CARD] Q\n> A\n\n> [!CARD]\n> The {{x}}."),
        source("Two", "# Two\nno cards"),
    ];
    assert_eq!(
        list_lines(&notes),
        vec![
            "One (2 card(s))",
            "  [basic] Q",
            "  [cloze] The {{c1::x}}.",
            "\n2 card(s) across 2 note(s)",
        ]
    );
    assert_eq!(list_lines(&vec![]), vec!["No notes found."]);
}

#[test]
fn long_prompts_are_cut_off() {
    let card = |front: String| Card {
        kind: CardKind::Basic {
            front,
            back: "".into(),
        },
        deck: "D".into(),
        fingerprint: "f".into(),
        callout_type: "card".into(),
        sort_key: "1".into(),
        context: vec![],
    };
    assert_eq!(
        card_line(&card("x".repeat(69))),
        format!("  [basic] {}", "x".repeat(69))
    );
    assert_eq!(
        card_line(&card("x".repeat(70))),
        format!("  [basic] {}…", "x".repeat(70))
    );
    assert_eq!(
        card_line(&card("x".repeat(71))),
        format!("  [basic] {}…", "x".repeat(70))
    );
    assert_eq!(
        card_line(&card("é".repeat(35))),
        format!("  [basic] {}…", "é".repeat(35))
    );
}

fn some_state() -> SyncState {
    let mut state = SyncState::load(None, "/tmp/state.json".to_owned());
    state.insert("B", "f1", 1);
    state.insert("A", "f1", 2);
    state.insert("C", "f1", 3);
    state.insert("C", "f2", 4);
    state
}

#[test]
fn notes_are_counted_and_sorted() {
    let counts = note_counts(&some_state().all_keys());
    assert_eq!(
        counts,
        vec![
            ("C".to_owned(), 2),
            ("A".to_owned(), 1),
            ("B".to_owned(), 1)
        ]
    );
    assert_eq!(note_counts(&vec![]), vec![]);
}

#[test]
fn the_status_names_the_notes() {
    let state = some_state();
    let mut titles: TextMap<String> = TextMap::new();
    titles.insert("C".to_owned(), "Chemistry".to_owned());
    let list = state.all_keys();
    assert_eq!(
        status_lines(list.len(), &note_counts(&list), &titles, state.path()),
        vec![
            "4 card(s) tracked across 3 note(s):",
            "    2 card(s)  Chemistry",
            "    1 card(s)  A",
            "    1 card(s)  B",
            "\nState file: /tmp/state.json",
        ]
    );
    let many = vec![("A".to_owned(), 10), ("B".to_owned(), 1000)];
    let lines = status_lines(1010, &many, &titles, "p");
    assert_eq!(lines[1], "   10 card(s)  A");
    assert_eq!(lines[2], "  1000 card(s)  B");
    assert_eq!(
        status_lines(0, &vec![], &titles, "p"),
        vec!["No cards tracked. Run `bear-anki sync` to get started."]
    );
}

#[test]
fn a_reset_forgets_everything() {
    let mut state = some_state();
    assert_eq!(tracked_ids(&state.all_keys()), vec![1, 2, 3, 4]);
    clear_state(&mut state);
    assert!(state.all_keys().is_empty());
    assert_eq!(deleted_line(4), "Deleted 4 note(s) from Anki.");
    assert_eq!(cleared_line(4, true), "State cleared (4 card(s) removed).");
    assert_eq!(
        cleared_line(4, false),
        "State cleared (4 card(s) removed). Anki notes were NOT deleted (pass --delete-anki-notes to remove them too)."
    );
    assert_eq!(
        nothing_to_reset_line(),
        "Nothing to reset — state is already empty."
    );
}
