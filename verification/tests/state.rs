use bear_anki_sync::paths::{join, HomeNotSet};
use bear_anki_sync::state::{make_key, state_path, StateFile, SyncState};

fn temp_state(tag: &str) -> SyncState {
    SyncState::load(None, format!("/tmp/bear-anki-state-test-{tag}.json"))
}

#[test]
fn round_trips_insert_and_get() {
    let mut state = temp_state("get");
    state.insert("NOTE-1", "aabbccdd11223344", 42);
    assert_eq!(state.get("NOTE-1", "aabbccdd11223344"), Some(42));
    assert_eq!(state.get("NOTE-1", "other"), None);
}

#[test]
fn remove_returns_id_and_clears_entry() {
    let mut state = temp_state("remove");
    state.insert("NOTE-1", "fp1", 99);
    assert_eq!(state.remove("NOTE-1", "fp1"), Some(99));
    assert_eq!(state.get("NOTE-1", "fp1"), None);
}

#[test]
fn keys_for_note_returns_correct_entries() {
    let mut state = temp_state("keys");
    state.insert("NOTE-1", "fp1", 1);
    state.insert("NOTE-1", "fp2", 2);
    state.insert("NOTE-2", "fp3", 3);
    let mut keys = state.keys_for_note("NOTE-1");
    keys.sort();
    assert_eq!(
        keys,
        vec![make_key("NOTE-1", "fp1"), make_key("NOTE-1", "fp2")]
    );
}

#[test]
fn save_and_load_round_trip() {
    let mut state = temp_state("roundtrip");
    state.insert("NOTE-1", "fp1", 111);
    state.insert("NOTE-2", "fp2", 222);
    let file = state.save();

    let loaded = SyncState::load(Some(file), state.path().to_owned());
    assert_eq!(loaded.get("NOTE-1", "fp1"), Some(111));
    assert_eq!(loaded.get("NOTE-2", "fp2"), Some(222));
}

#[test]
fn load_returns_empty_when_file_missing() {
    let state = SyncState::load(None, "/tmp/bear-anki-nonexistent-state.json".to_owned());
    assert_eq!(state.get("NOTE-1", "fp1"), None);
}

#[test]
fn digests_are_kept_and_forgotten_with_their_card() {
    let mut state = temp_state("hashes");
    state.insert("NOTE-1", "fp1", 1);
    state.set_hash("NOTE-1", "fp1", "aaaa".to_owned());
    assert_eq!(state.get_hash("NOTE-1", "fp1"), Some("aaaa"));
    let loaded = SyncState::load(Some(state.save()), state.path().to_owned());
    assert_eq!(loaded.get_hash("NOTE-1", "fp1"), Some("aaaa"));
    state.remove("NOTE-1", "fp1");
    assert_eq!(state.get_hash("NOTE-1", "fp1"), None);
    assert_eq!(state.remove("NOTE-1", "fp1"), None);
}

#[test]
fn the_last_entry_of_a_key_counts() {
    let file = StateFile {
        version: 1,
        cards: vec![("N:a".to_owned(), 1), ("N:a".to_owned(), 2)],
        hashes: vec![],
    };
    let state = SyncState::load(Some(file), "/tmp/s.json".to_owned());
    assert_eq!(state.get("N", "a"), Some(2));
    assert_eq!(state.save().cards, vec![("N:a".to_owned(), 2)]);
    assert_eq!(state.save().version, 1);
    assert_eq!(state.path(), "/tmp/s.json");
}

#[test]
fn keys_without_a_colon_are_not_listed() {
    let file = StateFile {
        version: 1,
        cards: vec![("broken".to_owned(), 1), ("N:a:b".to_owned(), 2)],
        hashes: vec![],
    };
    let state = SyncState::load(Some(file), "/tmp/s.json".to_owned());
    assert_eq!(
        state.all_keys(),
        vec![("N".to_owned(), "a:b".to_owned(), 2)]
    );
}

#[test]
fn cards_are_independent() {
    let mut state = temp_state("independent");
    state.insert("NOTE-1", "fp1", 1);
    state.insert("NOTE-1", "fp2", 2);
    state.insert("NOTE-1", "fp1", 3);
    state.remove("NOTE-1", "fp2");
    assert_eq!(state.get("NOTE-1", "fp1"), Some(3));
    assert_ne!(make_key("a", "b"), make_key("b", "a"));
}

#[test]
fn the_state_file_stands_below_home() {
    assert_eq!(
        state_path(Some("/Users/me")),
        Ok("/Users/me/Library/Application Support/bear-anki/state.json".to_owned())
    );
    assert_eq!(state_path(None), Err(HomeNotSet));
    assert_eq!(HomeNotSet.message(), "$HOME is not set");
    assert_eq!(join("/", "a"), "/a");
    assert_eq!(join("", "a"), "a");
    assert_eq!(join("a", "b"), "a/b");
}
