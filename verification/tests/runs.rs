use bear_anki_sync::anki::AnkiNote;
use bear_anki_sync::apply::{is_note_not_found_message, Apply, ApplyAction};
use bear_anki_sync::config::Config;
use bear_anki_sync::messages::{found_line, no_match_line, no_match_warning, Line};
use bear_anki_sync::parser::{BearNote, NoteBody};
use bear_anki_sync::render::NoteImage;
use bear_anki_sync::scope::{
    collect_cards, filter_notes, note_title_map, notes_in_scope, SourceNote,
};
use bear_anki_sync::state::SyncState;
use bear_anki_sync::sync::{decide, sync, Decision, PlanAction, SyncOptions, SyncReport};

fn note(id: &str, text: &str) -> SourceNote {
    tagged_note(id, text, vec![])
}

fn tagged_note(id: &str, text: &str, tags: Vec<String>) -> SourceNote {
    SourceNote {
        note: BearNote {
            identifier: id.to_owned(),
            title: "Deck".to_owned(),
            text: text.to_owned(),
            pinned: false,
            created_at: None,
            modified_at: None,
            tags,
        },
        body: NoteBody {
            deck_override: None,
            text: text.to_owned(),
        },
    }
}

fn empty_state() -> SyncState {
    SyncState::load(None, "/tmp/state.json".to_owned())
}

fn options(config: &Config) -> SyncOptions<'_> {
    SyncOptions {
        tag_filter: None,
        note_filter: None,
        dry_run: false,
        force: false,
        verbose: false,
        progress: false,
        config,
    }
}

/// An Anki that only remembers.
struct FakeAnki {
    next_id: u64,
    notes: Vec<(u64, AnkiNote)>,
    decks: Vec<String>,
    media: Vec<String>,
    refuses_media: bool,
    update_error: Option<String>,
    images: Vec<NoteImage>,
    fetched: Vec<String>,
    moves: Vec<(u64, String)>,
    batches: Vec<usize>,
    saves: usize,
    lines: Vec<String>,
    warnings: Vec<String>,
}

fn fake_anki() -> FakeAnki {
    FakeAnki {
        next_id: 100,
        notes: vec![],
        decks: vec![],
        media: vec![],
        refuses_media: false,
        update_error: None,
        images: vec![],
        fetched: vec![],
        moves: vec![],
        batches: vec![],
        saves: 0,
        lines: vec![],
        warnings: vec![],
    }
}

fn tell(anki: &mut FakeAnki, lines: Vec<Line>) {
    for line in lines {
        match line {
            Line::Out(text) => anki.lines.push(text),
            Line::Warning(text) => anki.warnings.push(text),
        }
    }
}

fn run(
    notes: &Vec<SourceNote>,
    state: &mut SyncState,
    options: &SyncOptions<'_>,
    anki: &mut FakeAnki,
) -> Result<SyncReport, String> {
    let mut plan = sync(notes);
    loop {
        let step = plan.step(state, options);
        tell(anki, step.lines);
        match step.action {
            PlanAction::Continue => {}
            PlanAction::FetchImages(note_id) => {
                anki.fetched.push(note_id.clone());
                plan.images_fetched(note_id, anki.images.clone());
            }
            PlanAction::Upload(image) => {
                if anki.refuses_media {
                    let warning = plan.image_failed("no media");
                    anki.warnings.push(warning);
                } else {
                    anki.media.push(image.anki_filename());
                    plan.image_uploaded();
                }
            }
            PlanAction::Ready => break,
        }
    }
    let mut apply = Apply::new(plan);
    loop {
        let step = apply.step(state, options);
        tell(anki, step.lines);
        match step.action {
            ApplyAction::Continue => {}
            ApplyAction::CreateDeck(deck) => anki.decks.push(deck),
            ApplyAction::UpdateNotes(updates) => {
                anki.batches.push(updates.len());
                let mut outcomes = vec![];
                for (id, new) in updates {
                    let place = anki.notes.iter().position(|(known, _)| *known == id);
                    match (place, &anki.update_error) {
                        (_, Some(error)) => outcomes.push(Some(error.clone())),
                        (Some(i), None) => {
                            anki.notes[i].1 = new;
                            outcomes.push(None);
                        }
                        (None, None) => outcomes.push(Some("Note was not found".to_owned())),
                    }
                }
                let (lines, failure) = apply.notes_updated(&outcomes);
                tell(anki, lines);
                if let Some(message) = failure {
                    return Err(message);
                }
            }
            ApplyAction::MoveNotes(moves) => anki.moves.extend(moves),
            ApplyAction::AddNotes(notes) => {
                anki.batches.push(notes.len());
                let mut ids = vec![];
                for new in notes {
                    anki.next_id += 1;
                    ids.push(anki.next_id);
                    anki.notes.push((anki.next_id, new));
                }
                apply.notes_added(state, &ids);
            }
            ApplyAction::DeleteNotes(ids) => anki.notes.retain(|(id, _)| !ids.contains(id)),
            ApplyAction::Save => anki.saves += 1,
            ApplyAction::Done(report) => return Ok(report),
        }
    }
}

fn report(added: usize, updated: usize, deleted: usize, skipped: usize) -> SyncReport {
    SyncReport {
        added,
        updated,
        deleted,
        skipped,
    }
}

#[test]
fn a_run_adds_updates_deletes_and_skips() {
    let config = Config::default();
    let mut state = empty_state();
    let mut anki = fake_anki();
    let first = vec![note(
        "N1",
        "# Deck\n> [!CARD] A\n> 1\n\n> [!CARD] B\n> 2\n\n> [!CARD] C\n> 3",
    )];
    let done = run(&first, &mut state, &options(&config), &mut anki);
    assert_eq!(done, Ok(report(3, 0, 0, 0)));
    assert_eq!(anki.decks, vec!["Deck"]);
    assert_eq!(anki.notes.len(), 3);
    assert_eq!(state.all_keys().len(), 3);

    let done = run(&first, &mut state, &options(&config), &mut anki);
    assert_eq!(done, Ok(report(0, 0, 0, 3)));

    let second = vec![note(
        "N1",
        "# Deck\n> [!CARD] A\n> 1\n\n> [!CARD] B\n> changed\n\n> [!CARD] D\n> 4",
    )];
    let done = run(&second, &mut state, &options(&config), &mut anki);
    assert_eq!(done, Ok(report(1, 1, 1, 1)));
    assert_eq!(anki.notes.len(), 3);
    assert_eq!(anki.moves, vec![(102, "Deck".to_owned())]);
    assert!(anki.notes.iter().any(|(_, n)| n.fields[1].1.contains("changed")));
    assert_eq!(state.all_keys().len(), 3);

    let done = run(&second, &mut state, &options(&config), &mut anki);
    assert_eq!(done, Ok(report(0, 0, 0, 3)));
}

#[test]
fn a_forced_run_skips_nothing() {
    let config = Config::default();
    let mut state = empty_state();
    let mut anki = fake_anki();
    let notes = vec![note("N1", "# Deck\n> [!CARD] A\n> 1")];
    run(&notes, &mut state, &options(&config), &mut anki).unwrap();
    let forced = SyncOptions {
        force: true,
        ..options(&config)
    };
    let done = run(&notes, &mut state, &forced, &mut anki);
    assert_eq!(done, Ok(report(0, 1, 0, 0)));
}

#[test]
fn a_dry_run_changes_nothing() {
    let config = Config::default();
    let mut state = empty_state();
    let mut anki = fake_anki();
    let first = vec![note("N1", "# Deck\n> [!CARD] A\n> 1\n\n> [!CARD] B\n> 2")];
    run(&first, &mut state, &options(&config), &mut anki).unwrap();
    let saves = anki.saves;
    let second = vec![note("N1", "# Deck\n> [!CARD] A\n> new\n\n> [!CARD] C\n> 3")];
    let dry = SyncOptions {
        dry_run: true,
        ..options(&config)
    };
    let done = run(&second, &mut state, &dry, &mut anki);
    assert_eq!(done, Ok(report(1, 1, 1, 0)));
    assert_eq!(
        anki.lines,
        vec![
            "[dry-run] would update Anki note 101 (deck: Deck)",
            "[dry-run] would add card to deck \"Deck\" (Basic)",
            "[dry-run] would delete 1 Anki note(s)",
        ]
    );
    assert_eq!(anki.saves, saves);
    assert_eq!(anki.notes.len(), 2);
    assert_eq!(state.all_keys().len(), 2);
}

#[test]
fn a_filtered_run_leaves_other_notes() {
    let config = Config::default();
    let mut state = empty_state();
    let mut anki = fake_anki();
    let all = vec![
        note("N1", "# Deck\n> [!CARD] A\n> 1"),
        note("N2", "# Deck\n> [!CARD] B\n> 2"),
    ];
    run(&all, &mut state, &options(&config), &mut anki).unwrap();
    let filtered = SyncOptions {
        tag_filter: Some("t"),
        ..options(&config)
    };
    let some = vec![note("N1", "# Deck\nnothing")];
    let done = run(&some, &mut state, &filtered, &mut anki);
    assert_eq!(done, Ok(report(0, 0, 1, 0)));
    let keys = state.all_keys();
    assert_eq!(keys.len(), 1);
    assert_eq!(keys[0].0, "N2");
}

#[test]
fn a_filtered_run_mirrors_its_notes() {
    let config = Config::default();
    let mut state = empty_state();
    let mut anki = fake_anki();
    let all = vec![
        note("N1", "# Deck\n> [!CARD] A\n> 1\n\n> [!CARD] B\n> 2"),
        note("N2", "# Deck\n> [!CARD] C\n> 3"),
    ];
    run(&all, &mut state, &options(&config), &mut anki).unwrap();
    let filtered = SyncOptions {
        note_filter: Some("deck"),
        ..options(&config)
    };
    let some = vec![note("N1", "# Deck\n> [!CARD] A\n> new\n\n> [!CARD] D\n> 4")];
    let done = run(&some, &mut state, &filtered, &mut anki);
    assert_eq!(done, Ok(report(1, 1, 1, 0)));
    let scope = collect_cards(&some);
    assert_eq!(state.keys_for_note("N1").len(), 2);
    for scoped in &scope.cards {
        let fp = scoped.card.fingerprint.as_str();
        assert!(state.get("N1", fp).is_some());
        assert!(state.get_hash("N1", fp).is_some());
    }
    assert_eq!(state.keys_for_note("N2").len(), 1);
    let done = run(&some, &mut state, &filtered, &mut anki);
    assert_eq!(done, Ok(report(0, 0, 0, 2)));
}

#[test]
fn a_card_keeps_its_number_when_its_back_or_deck_changes() {
    let config = Config::default();
    let mut state = empty_state();
    let mut anki = fake_anki();
    let first = vec![note("N1", "# Deck\n> [!CARD] A\n> 1\n\n> [!CARD] B\n> 2")];
    run(&first, &mut state, &options(&config), &mut anki).unwrap();
    let before = state.all_keys();
    let second = vec![note(
        "N1",
        "# Deck\n## Part\n> [!CARD] A\n> new\n\n> [!CARD] B\n> 2",
    )];
    let done = run(&second, &mut state, &options(&config), &mut anki);
    assert_eq!(done, Ok(report(0, 2, 0, 0)));
    assert_eq!(state.all_keys(), before);
    assert_eq!(anki.notes.len(), 2);
    assert_eq!(
        anki.moves,
        vec![
            (101, "Deck::1.Part".to_owned()),
            (102, "Deck::1.Part".to_owned())
        ]
    );
    assert!(anki.notes[0].1.fields[1].1.contains("new"));
}

#[test]
fn anki_is_sent_all_sides_of_a_card() {
    let config = Config::default();
    let mut state = empty_state();
    let mut anki = fake_anki();
    let image = NoteImage::new("a.png".to_owned(), "N1:1".to_owned(), vec![1]);
    let tag = format!("<img src=\"{}\"", image.anki_filename());
    anki.images = vec![image];
    let first = vec![note(
        "N1",
        "# Deck\n> [!CARD] Front *one*\n> Back ![](a.png) two\n\n> [!CARD]\n> A {{blank}} ![](a.png)",
    )];
    run(&first, &mut state, &options(&config), &mut anki).unwrap();
    assert_eq!(anki.media.len(), 1);
    let basic = &anki.notes[0].1;
    assert_eq!(basic.deck, "Deck");
    assert_eq!(basic.fields[0].0, "Front");
    assert!(basic.fields[0].1.contains("<p>Front <em>one</em></p>"));
    assert!(!basic.fields[0].1.contains("Back"));
    assert_eq!(basic.fields[1].0, "Back");
    assert!(basic.fields[1].1.starts_with("<p>Back "));
    assert!(basic.fields[1].1.contains(&tag));
    assert!(basic.fields[1].1.ends_with(" two</p>\n"));
    let cloze = &anki.notes[1].1;
    assert_eq!(cloze.fields.len(), 1);
    assert_eq!(cloze.fields[0].0, "Text");
    assert!(cloze.fields[0].1.contains("A {{c1::blank}} "));
    assert!(cloze.fields[0].1.contains(&tag));

    let second = vec![note(
        "N1",
        "# Deck\n> [!CARD] Front *one*\n> New\n\n> [!CARD]\n> A {{blank}} ![](a.png)",
    )];
    run(&second, &mut state, &options(&config), &mut anki).unwrap();
    assert!(anki.notes[0].1.fields[0].1.contains("<p>Front <em>one</em></p>"));
    assert_eq!(anki.notes[0].1.fields[1].1, "<p>New</p>\n");
}

#[test]
fn a_new_front_is_a_new_card() {
    let config = Config::default();
    let mut state = empty_state();
    let mut anki = fake_anki();
    let first = vec![note("N1", "# Deck\n> [!CARD] A\n> 1")];
    run(&first, &mut state, &options(&config), &mut anki).unwrap();
    assert_eq!(state.all_keys()[0].2, 101);
    let second = vec![note("N1", "# Deck\n> [!CARD] New\n> 1")];
    let done = run(&second, &mut state, &options(&config), &mut anki);
    assert_eq!(done, Ok(report(1, 0, 1, 0)));
    assert_eq!(anki.notes.len(), 1);
    assert_eq!(anki.notes[0].0, 102);
    assert_eq!(state.all_keys().len(), 1);
    assert_eq!(state.all_keys()[0].2, 102);
}

#[test]
fn a_second_run_changes_nothing() {
    let config = Config::default();
    let mut state = empty_state();
    let mut anki = fake_anki();
    anki.images = vec![NoteImage::new(
        "a.png".to_owned(),
        "N1:1".to_owned(),
        vec![1, 2, 3],
    )];
    let notes = vec![note(
        "N1",
        "# Deck\n> [!CARD] A\n> ![](a.png)\n\n> [!CARD] B\n> 2",
    )];
    run(&notes, &mut state, &options(&config), &mut anki).unwrap();
    let keys = state.all_keys();
    let (batches, media) = (anki.batches.len(), anki.media.len());
    assert_eq!(media, 1);
    let done = run(&notes, &mut state, &options(&config), &mut anki);
    assert_eq!(done, Ok(report(0, 0, 0, 2)));
    assert_eq!(state.all_keys(), keys);
    assert_eq!((anki.batches.len(), anki.media.len()), (batches, media));
    assert!(anki.moves.is_empty());
}

#[test]
fn a_missing_note_is_added_again() {
    let config = Config::default();
    let mut state = empty_state();
    let mut anki = fake_anki();
    run(
        &vec![note("N1", "# Deck\n> [!CARD] A\n> 1")],
        &mut state,
        &options(&config),
        &mut anki,
    )
    .unwrap();
    anki.notes.clear();
    let changed = vec![note("N1", "# Deck\n> [!CARD] A\n> 2")];
    let done = run(&changed, &mut state, &options(&config), &mut anki);
    assert_eq!(done, Ok(report(0, 1, 0, 0)));
    assert_eq!(
        anki.warnings,
        vec!["bear-anki: note 101 not found in Anki, re-adding"]
    );
    assert_eq!(anki.notes.len(), 1);
    assert_eq!(state.all_keys()[0].2, 102);
    assert!(anki.moves.is_empty());
    let done = run(&changed, &mut state, &options(&config), &mut anki);
    assert_eq!(done, Ok(report(0, 0, 0, 1)));
}

#[test]
fn another_error_ends_the_run() {
    let config = Config::default();
    let mut state = empty_state();
    let mut anki = fake_anki();
    run(
        &vec![note("N1", "# Deck\n> [!CARD] A\n> 1")],
        &mut state,
        &options(&config),
        &mut anki,
    )
    .unwrap();
    anki.update_error = Some("broken".to_owned());
    let changed = vec![note("N1", "# Deck\n> [!CARD] A\n> 2")];
    let done = run(&changed, &mut state, &options(&config), &mut anki);
    assert_eq!(done, Err("AnkiConnect update failed: broken".to_owned()));
}

#[test]
fn notes_go_in_batches_of_fifty() {
    let config = Config::default();
    let mut state = empty_state();
    let mut anki = fake_anki();
    let mut text = String::from("# Deck\n");
    for n in 0..120 {
        text.push_str(&format!("> [!CARD] Q{n}\n> A\n\n"));
    }
    let notes = vec![note("N1", &text)];
    let shown = SyncOptions {
        progress: true,
        ..options(&config)
    };
    let done = run(&notes, &mut state, &shown, &mut anki);
    assert_eq!(done, Ok(report(120, 0, 0, 0)));
    assert_eq!(anki.batches, vec![50, 50, 20]);
    assert_eq!(anki.lines[0], "[prepare add]    1/120 Deck — Q0");
    assert_eq!(
        anki.lines[120..],
        [
            "Adding 120 Anki note(s) in batches of up to 50...",
            "[add]    50/120 Anki note(s) added",
            "[add]    100/120 Anki note(s) added",
            "[add]    120/120 Anki note(s) added",
        ]
    );
    assert_eq!(anki.saves, 4);
    anki.batches.clear();
    anki.lines.clear();
    let forced = SyncOptions {
        force: true,
        progress: true,
        ..options(&config)
    };
    run(&notes, &mut state, &forced, &mut anki).unwrap();
    assert_eq!(anki.batches, vec![50, 50, 20]);
    assert_eq!(anki.lines[0], "[prepare update] 1/120 Deck — Q0");
    assert_eq!(
        anki.lines[120],
        "Updating 120 Anki note(s) in batches of up to 50..."
    );
    assert_eq!(anki.lines[121], "[update] 50/120 Anki note(s) updated");
}

#[test]
fn every_card_is_told_of_where_that_is_asked() {
    let config = Config::default();
    let mut state = empty_state();
    let mut anki = fake_anki();
    let notes = vec![note("N1", "# Deck\n> [!CARD] A\n> 1")];
    let verbose = SyncOptions {
        verbose: true,
        ..options(&config)
    };
    run(&notes, &mut state, &verbose, &mut anki).unwrap();
    run(&notes, &mut state, &verbose, &mut anki).unwrap();
    let forced = SyncOptions {
        verbose: true,
        force: true,
        ..options(&config)
    };
    run(&notes, &mut state, &forced, &mut anki).unwrap();
    assert_eq!(
        anki.lines,
        vec!["[add]    Deck — A", "[skip]   Deck — A", "[update] Deck — A"]
    );
    let shown = SyncOptions {
        progress: true,
        ..options(&config)
    };
    anki.lines.clear();
    run(&vec![], &mut state, &shown, &mut anki).unwrap();
    assert_eq!(anki.lines, vec!["[delete] 1 stale Anki note(s)"]);
}

#[test]
fn each_image_is_uploaded_once_in_a_run() {
    let config = Config::default();
    let mut state = empty_state();
    let mut anki = fake_anki();
    anki.images = vec![
        NoteImage::new("a.png".into(), "abc".into(), b"1".to_vec()),
        NoteImage::new("b.png".into(), "k2".into(), b"2".to_vec()),
    ];
    let notes = vec![note(
        "N1",
        "# Deck\n> [!CARD] A ![](a.png)\n> 1 ![](a.png)\n\n> [!CARD] B\n> 2 ![](a.png)",
    )];
    run(&notes, &mut state, &options(&config), &mut anki).unwrap();
    assert_eq!(anki.media, vec!["bear_ba7816bf8f01cfea_a.png"]);
    assert_eq!(anki.fetched, vec!["N1"]);
    assert!(anki.notes[1].1.fields[1]
        .1
        .contains("<img src=\"bear_ba7816bf8f01cfea_a.png\">"));
}

#[test]
fn a_failed_image_is_told_and_left() {
    let config = Config::default();
    let mut state = empty_state();
    let mut anki = fake_anki();
    anki.refuses_media = true;
    anki.images = vec![NoteImage::new("a.png".into(), "abc".into(), b"1".to_vec())];
    let notes = vec![note("N1", "# Deck\n> [!CARD] A\n> ![](a.png)")];
    let done = run(&notes, &mut state, &options(&config), &mut anki);
    assert_eq!(done, Ok(report(1, 0, 0, 0)));
    assert_eq!(
        anki.warnings,
        vec!["bear-anki: failed to upload image a.png: no media"]
    );
}

#[test]
fn tags_of_the_note_go_with_its_cards() {
    let config = Config::default();
    let mut state = empty_state();
    let mut anki = fake_anki();
    let notes = vec![tagged_note(
        "N1",
        "# Deck\n> [!TIP] A\n> 1",
        vec!["cs/net".to_owned()],
    )];
    run(&notes, &mut state, &options(&config), &mut anki).unwrap();
    assert_eq!(anki.notes[0].1.tags, vec!["bear-tip", "cs::net"]);
}

#[test]
fn the_last_card_of_an_identity_counts() {
    let notes = vec![note(
        "N1",
        "# Deck\n> [!CARD] A\n> 1\n\n> [!CARD] B\n> 2\n\n> [!CARD] A\n> 3",
    )];
    let scope = collect_cards(&notes);
    assert_eq!(scope.cards.len(), 2);
    assert_eq!(scope.cards[0].card.sort_key, "3");
    assert_eq!(scope.cards[1].card.sort_key, "2");
    assert_eq!(scope.tags.len(), 1);
}

#[test]
fn titles_are_matched_in_letters_of_either_case() {
    let notes: Vec<BearNote> = vec![note("N1", "").note, note("N2", "").note];
    let mut notes = notes;
    notes[1].title = "ÉTUDE".to_owned();
    let kept = filter_notes(notes.clone(), "étude");
    assert_eq!(kept.len(), 1);
    assert_eq!(kept[0].identifier, "N2");
    assert_eq!(filter_notes(notes.clone(), "").len(), 2);
    assert!(filter_notes(notes.clone(), "none").is_empty());
    assert_eq!(notes_in_scope(notes.clone(), None), notes);
    let kept = notes_in_scope(notes, Some("étude"));
    assert_eq!(kept.len(), 1);
    assert_eq!(kept[0].identifier, "N2");
    assert_eq!(no_match_warning(None, 0), None);
    assert_eq!(no_match_warning(Some("a"), 1), None);
    assert_eq!(
        no_match_warning(Some("a"), 0),
        Some("bear-anki: no notes found matching \"a\"".to_owned())
    );
    assert_eq!(
        no_match_line("a \"b\""),
        "bear-anki: no notes found matching \"a \\\"b\\\"\""
    );
    assert_eq!(
        found_line(2, 3),
        "Found 2 note(s), 3 card(s) in sync scope."
    );
}

#[test]
fn notes_without_a_title_go_by_their_identifier() {
    let titles = note_title_map(&vec![
        ("N1".to_owned(), " A title ".to_owned()),
        ("N2".to_owned(), "  ".to_owned()),
    ]);
    assert_eq!(titles.get("N1"), Some(&"A title".to_owned()));
    assert_eq!(titles.get("N2"), Some(&"N2".to_owned()));
    assert_eq!(titles.get("N3"), None);
}

#[test]
fn decisions_follow_the_state() {
    let mut state = empty_state();
    assert_eq!(decide(&state, "N", "f", "h", false), Decision::Add);
    state.insert("N", "f", 7);
    assert_eq!(decide(&state, "N", "f", "h", false), Decision::Update(7));
    state.set_hash("N", "f", "h".to_owned());
    assert_eq!(decide(&state, "N", "f", "h", false), Decision::Skip);
    assert_eq!(decide(&state, "N", "f", "h", true), Decision::Update(7));
    assert_eq!(decide(&state, "N", "f", "x", false), Decision::Update(7));
}

#[test]
fn missing_notes_are_known_by_their_message() {
    assert!(is_note_not_found_message("Note was NOT FOUND: 1"));
    assert!(is_note_not_found_message("no note with id 1"));
    assert!(!is_note_not_found_message("broken"));
}
