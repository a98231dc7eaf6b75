//! What has been synchronised: the Anki note and the content digest of every card.

use vstd::prelude::*;

use crate::chars;
use crate::lists;
use crate::paths;
use crate::paths::HomeNotSet;
use crate::text;
use crate::text_map;
use crate::text_map::TextMap;

verus! {

/// What the state file holds.
#[derive(Debug)]
pub struct StateFile {
    pub version: u32,
    pub cards: Vec<(String, u64)>,
    /// The content digest of each card. Older files hold none.
    pub hashes: Vec<(String, String)>,
}

/// The cards that have been synchronised.
#[derive(Debug)]
pub struct SyncState {
    cards: TextMap<u64>,
    hashes: TextMap<String>,
    path: String,
}

/// The Anki note and the content digest of each card, by the key of the card.
pub struct StateModel {
    pub cards: Map<Seq<char>, u64>,
    pub hashes: Map<Seq<char>, Seq<char>>,
}

impl View for SyncState {
    type V = StateModel;

    closed spec fn view(&self) -> StateModel {
        StateModel { cards: self.cards@, hashes: text_map::text_values(self.hashes@) }
    }
}

/// The key of a card: the note and the fingerprint, with a colon between them.
pub open spec fn key_of(note_id: Seq<char>, fp: Seq<char>) -> Seq<char> {
    note_id + ":"@ + fp
}

/// The key of a card.
pub fn make_key(note_id: &str, fp: &str) -> (key: String)
    ensures
        key@ == key_of(note_id@, fp@),
{
    let mut key = note_id.to_owned();
    key.append(":");
    key.append(fp);
    assert(key@ == key_of(note_id@, fp@));
    key
}

/// The path of the state file, below the home directory.
pub fn state_path(home: Option<&str>) -> (path: Result<String, HomeNotSet>)
    ensures
        match (home, path) {
            (Some(h), Ok(p)) => p@ == paths::support_path(h@, "state.json"@),
            (None, Err(_)) => true,
            _ => false,
        },
{
    paths::support_file(home, "state.json")
}

/// The Anki notes that the entries of a file name. The last entry of a key counts.
pub open spec fn entry_ids(entries: Seq<(String, u64)>) -> Map<Seq<char>, u64>
    decreases entries.len(),
{
    if entries.len() == 0 {
        Map::empty()
    } else {
        entry_ids(entries.drop_last()).insert(entries.last().0@, entries.last().1)
    }
}

/// What a state file says.
pub open spec fn file_model(file: StateFile) -> StateModel {
    StateModel { cards: entry_ids(file.cards@), hashes: text_map::entry_texts(file.hashes@) }
}

/// Nothing has been synchronised.
pub open spec fn nothing_synced() -> StateModel {
    StateModel { cards: Map::empty(), hashes: Map::empty() }
}

/// A tracked card: its note, its fingerprint and its Anki note.
pub struct KnownCard {
    pub note_id: Seq<char>,
    pub fp: Seq<char>,
    pub anki_id: u64,
}

/// What a list of tracked cards says.
pub open spec fn known_models(list: Seq<(String, String, u64)>) -> Seq<KnownCard> {
    Seq::new(
        list.len(),
        |i: int| KnownCard { note_id: list[i].0@, fp: list[i].1@, anki_id: list[i].2 },
    )
}

/// The card is tracked under a key whose first colon stands behind the note.
pub open spec fn is_known(state: StateModel, card: KnownCard) -> bool {
    &&& !card.note_id.contains(':')
    &&& state.cards.contains_key(key_of(card.note_id, card.fp))
    &&& state.cards[key_of(card.note_id, card.fp)] == card.anki_id
}

/// A list names the tracked cards, each one once.
pub open spec fn lists_known(list: Seq<KnownCard>, state: StateModel) -> bool {
    &&& list.no_duplicates()
    &&& forall|card: KnownCard| #[trigger] list.contains(card) <==> is_known(state, card)
}

/// The cards behind some keys. A key without a colon names none.
spec fn cards_under(keys: Seq<Seq<char>>, ids: Map<Seq<char>, u64>) -> Seq<KnownCard>
    decreases keys.len(),
{
    if keys.len() == 0 {
        Seq::empty()
    } else {
        let front = cards_under(keys.drop_last(), ids);
        let key = keys.last();
        match text::find(key, seq![':']) {
            Some(at) => front.push(
                KnownCard { note_id: key.take(at), fp: key.skip(at + 1), anki_id: ids[key] },
            ),
            None => front,
        }
    }
}

impl SyncState {
    /// The path of the state file.
    pub closed spec fn file_path(self) -> Seq<char> {
        self.path@
    }

    /// The tracked cards in the order in which they are listed.
    pub closed spec fn listed(self) -> Seq<KnownCard> {
        cards_under(self.cards.keys(), self.cards@)
    }

    /// The state that a file holds, or an empty state where there is no file.
    pub fn load(file: Option<StateFile>, path: String) -> (state: Self)
        ensures
            state@ == match file {
                Some(f) => file_model(f),
                None => nothing_synced(),
            },
            state.file_path() == path@,
    {
        let mut cards: TextMap<u64> = TextMap::new();
        let mut hashes: TextMap<String> = TextMap::new();
        assert(text_map::text_values(hashes@) =~= Map::<Seq<char>, Seq<char>>::empty());
        if let Some(f) = file {
            for i in 0..f.cards.len()
                invariant
                    cards@ == entry_ids(f.cards@.take(i as int)),
            {
                assert(f.cards@.take(i + 1).drop_last() == f.cards@.take(i as int));
                cards.insert(f.cards[i].0.clone(), f.cards[i].1);
            }
            assert(f.cards@.take(f.cards@.len() as int) == f.cards@);
            hashes = text_map::collect_texts(&f.hashes);
        }
        SyncState { cards, hashes, path }
    }

    /// What the state file is to hold.
    pub fn save(&self) -> (file: StateFile)
        ensures
            file.version == 1,
            file_model(file) == self@,
    {
        let mut cards: Vec<(String, u64)> = Vec::new();
        let count = self.cards.len();
        for i in 0..count
            invariant
                count == self.cards.keys().len(),
                cards@.len() == i,
                forall|k: Seq<char>| #[trigger]
                    entry_ids(cards@).dom().contains(k) == self.cards.keys().take(
                        i as int,
                    ).contains(k),
                forall|k: Seq<char>|
                    entry_ids(cards@).dom().contains(k) ==> #[trigger] entry_ids(cards@)[k]
                        == self.cards@[k],
        {
            let ghost before = cards@;
            let (key, id) = self.cards.entry(i);
            cards.push((key.to_owned(), *id));
            proof {
                assert(cards@.drop_last() == before);
                assert(entry_ids(cards@) == entry_ids(before).insert(key@, *id));
                lists::lemma_take_contains(self.cards.keys(), i as int);
            }
        }
        proof {
            assert(self.cards.keys().take(self.cards.keys().len() as int) == self.cards.keys());
            assert(entry_ids(cards@) =~= self.cards@);
        }
        let hashes = text_map::list_texts(&self.hashes);
        StateFile { version: 1, cards, hashes }
    }

    /// The Anki note of a card.
    pub fn get(&self, note_id: &str, fp: &str) -> (anki_id: Option<u64>)
        ensures
            anki_id == if self@.cards.contains_key(key_of(note_id@, fp@)) {
                Some(self@.cards[key_of(note_id@, fp@)])
            } else {
                None
            },
    {
        match self.cards.get(make_key(note_id, fp).as_str()) {
            Some(id) => Some(*id),
            None => None,
        }
    }

    /// Records the Anki note of a card.
    pub fn insert(&mut self, note_id: &str, fp: &str, anki_id: u64)
        ensures
            final(self)@ == (StateModel {
                cards: old(self)@.cards.insert(key_of(note_id@, fp@), anki_id),
                ..old(self)@
            }),
            final(self).file_path() == old(self).file_path(),
    {
        self.cards.insert(make_key(note_id, fp), anki_id);
    }

    /// Forgets a card. Gives its Anki note.
    pub fn remove(&mut self, note_id: &str, fp: &str) -> (anki_id: Option<u64>)
        ensures
            final(self)@ == (StateModel {
                cards: old(self)@.cards.remove(key_of(note_id@, fp@)),
                hashes: old(self)@.hashes.remove(key_of(note_id@, fp@)),
            }),
            final(self).file_path() == old(self).file_path(),
            anki_id == if old(self)@.cards.contains_key(key_of(note_id@, fp@)) {
                Some(old(self)@.cards[key_of(note_id@, fp@)])
            } else {
                None
            },
    {
        let key = make_key(note_id, fp);
        self.hashes.remove(key.as_str());
        let anki_id = self.cards.remove(key.as_str());
        assert(self@.hashes =~= old(self)@.hashes.remove(key_of(note_id@, fp@)));
        anki_id
    }

    /// The content digest of a card.
    pub fn get_hash(&self, note_id: &str, fp: &str) -> (hash: Option<&str>)
        ensures
            match hash {
                Some(h) => self@.hashes.contains_key(key_of(note_id@, fp@)) && h@
                    == self@.hashes[key_of(note_id@, fp@)],
                None => !self@.hashes.contains_key(key_of(note_id@, fp@)),
            },
    {
        match self.hashes.get(make_key(note_id, fp).as_str()) {
            Some(hash) => Some(hash.as_str()),
            None => None,
        }
    }

    /// Records the content digest of a card.
    pub fn set_hash(&mut self, note_id: &str, fp: &str, hash: String)
        ensures
            final(self)@ == (StateModel {
                hashes: old(self)@.hashes.insert(key_of(note_id@, fp@), hash@),
                ..old(self)@
            }),
            final(self).file_path() == old(self).file_path(),
    {
        let ghost text = hash@;
        self.hashes.insert(make_key(note_id, fp), hash);
        assert(self@.hashes =~= old(self)@.hashes.insert(key_of(note_id@, fp@), text));
    }

    /// The keys of the cards of a note.
    pub fn keys_for_note(&self, note_id: &str) -> (keys: Vec<String>)
        ensures
            text::texts(keys@).no_duplicates(),
            forall|k: Seq<char>| #[trigger]
                text::texts(keys@).contains(k) <==> self@.cards.contains_key(k)
                    && text::starts_with(k, note_id@ + ":"@),
    {
        let prefix = make_key(note_id, "");
        proof {
            reveal_strlit("");
            assert(prefix@ == note_id@ + ":"@);
        }
        let mut keys: Vec<String> = Vec::new();
        let count = self.cards.len();
        for i in 0..count
            invariant
                count == self.cards.keys().len(),
                self.cards.keys().no_duplicates(),
                prefix@ == note_id@ + ":"@,
                text::texts(keys@).no_duplicates(),
                forall|k: Seq<char>| #[trigger]
                    text::texts(keys@).contains(k) <==> self.cards.keys().take(i as int).contains(k)
                        && text::starts_with(k, prefix@),
        {
            let (key, _id) = self.cards.entry(i);
            proof {
                lists::lemma_take_contains(self.cards.keys(), i as int);
            }
            if chars::starts_with(key, prefix.as_str()) {
                let ghost before = text::texts(keys@);
                keys.push(key.to_owned());
                proof {
                    let after = text::texts(keys@);
                    assert(after =~= before.push(key@));
                    lists::lemma_push_contains(before, key@);
                    assert(!self.cards.keys().take(i as int).contains(key@)) by {
                        let front = self.cards.keys().take(i as int);
                        if front.contains(key@) {
                            let j = choose|j: int| 0 <= j < front.len() && front[j] == key@;
                            assert(self.cards.keys()[j] == self.cards.keys()[i as int]);
                        }
                    }
                }
            }
        }
        assert(self.cards.keys().take(count as int) == self.cards.keys());
        keys
    }

    /// The cards that are tracked, each with its Anki note.
    pub fn all_keys(&self) -> (list: Vec<(String, String, u64)>)
        ensures
            known_models(list@) == self.listed(),
            lists_known(self.listed(), self@),
    {
        let colon: [char; 1] = [':'];
        assert(colon@ == seq![':']);
        let mut list: Vec<(String, String, u64)> = Vec::new();
        let count = self.cards.len();
        for i in 0..count
            invariant
                count == self.cards.keys().len(),
                self.cards.keys().no_duplicates(),
                colon@ == seq![':'],
                known_models(list@) == cards_under(self.cards.keys().take(i as int), self.cards@),
                known_models(list@).no_duplicates(),
                forall|card: KnownCard| #[trigger]
                    known_models(list@).contains(card) <==> is_known(self@, card)
                        && self.cards.keys().take(i as int).contains(
                        key_of(card.note_id, card.fp),
                    ),
        {
            let (key, id) = self.cards.entry(i);
            let key_chars = chars::to_chars(key);
            let ghost before = known_models(list@);
            proof {
                lists::lemma_take_contains(self.cards.keys(), i as int);
                assert(self.cards.keys().take(i + 1).drop_last() == self.cards.keys().take(
                    i as int,
                ));
                assert(self.cards.keys().take(i + 1).last() == key@);
                lemma_split(key@);
                assert(!self.cards.keys().take(i as int).contains(key@)) by {
                    let front = self.cards.keys().take(i as int);
                    if front.contains(key@) {
                        let j = choose|j: int| 0 <= j < front.len() && front[j] == key@;
                        assert(self.cards.keys()[j] == self.cards.keys()[i as int]);
                    }
                }
            }
            if let Some(at) = chars::find(key_chars.as_slice(), &colon) {
                let note_id = chars::from_chars(chars::head(key_chars.as_slice(), at));
                let fp = chars::from_chars(chars::rest(key_chars.as_slice(), at + 1));
                list.push((note_id, fp, *id));
                proof {
                    let card = KnownCard { note_id: note_id@, fp: fp@, anki_id: *id };
                    assert(known_models(list@) =~= before.push(card));
                    lists::lemma_push_contains(before, card);
                    assert forall|other: KnownCard|
                        is_known(self@, other) && key_of(other.note_id, other.fp)
                            == key@ implies other == card by {
                        law_keys_tell_cards_apart(other.note_id, other.fp, card.note_id, card.fp);
                    }
                }
            }
        }
        proof {
            assert(self.cards.keys().take(count as int) == self.cards.keys());
            assert forall|card: KnownCard| #[trigger]
                self.listed().contains(card) <==> is_known(self@, card) by {
                if is_known(self@, card) {
                    assert(self.cards@.contains_key(key_of(card.note_id, card.fp)));
                }
            }
        }
        list
    }

    /// The path of the state file.
    pub fn path(&self) -> (path: &str)
        ensures
            path@ == self.file_path(),
    {
        self.path.as_str()
    }
}

/// The first colon of a key divides it into a note without a colon and the rest; a key without
/// a colon is not the key of any such note.
proof fn lemma_split(key: Seq<char>)
    ensures
        match text::find(key, seq![':']) {
            Some(at) => 0 <= at < key.len() && !key.take(at).contains(':') && key_of(
                key.take(at),
                key.skip(at + 1),
            ) == key,
            None => forall|note_id: Seq<char>, fp: Seq<char>| #[trigger] key_of(note_id, fp) != key,
        },
{
    let colon = seq![':'];
    reveal_strlit(":");
    assert(":"@ =~= colon);
    text::lemma_find(key, colon);
    match text::find(key, colon) {
        Some(at) => {
            assert(key.subrange(at, at + 1)[0] == ':');
            assert(key_of(key.take(at), key.skip(at + 1)) =~= key);
            if key.take(at).contains(':') {
                let j = choose|j: int| 0 <= j < at && key.take(at)[j] == ':';
                assert(key.subrange(j, j + 1) =~= colon);
                assert(text::occurs_at(key, colon, j));
            }
        },
        None => {
            assert forall|note_id: Seq<char>, fp: Seq<char>| #[trigger]
                key_of(note_id, fp) != key by {
                if key_of(note_id, fp) == key {
                    let at = note_id.len() as int;
                    assert(key.subrange(at, at + 1) =~= colon);
                    assert(text::occurs_at(key, colon, at));
                }
            }
        },
    }
}

/// The keys of two cards differ where their notes or their fingerprints differ, where the
/// identifiers of the notes have no colon in them.
pub proof fn law_keys_tell_cards_apart(
    note_id: Seq<char>,
    fp: Seq<char>,
    other_id: Seq<char>,
    other_fp: Seq<char>,
)
    requires
        !note_id.contains(':'),
        !other_id.contains(':'),
        key_of(note_id, fp) == key_of(other_id, other_fp),
    ensures
        note_id == other_id,
        fp == other_fp,
{
    reveal_strlit(":");
    let key = key_of(note_id, fp);
    assert(key[note_id.len() as int] == ':');
    assert(key_of(other_id, other_fp)[other_id.len() as int] == ':');
    if note_id.len() < other_id.len() {
        assert(other_id[note_id.len() as int] == ':');
    } else if other_id.len() < note_id.len() {
        assert(note_id[other_id.len() as int] == ':');
    }
    assert(note_id =~= key.take(note_id.len() as int));
    assert(other_id =~= key.take(other_id.len() as int));
    assert(fp =~= key.skip(note_id.len() as int + 1));
    assert(other_fp =~= key.skip(other_id.len() as int + 1));
}

// ── Laws ─────────────────────────────────────────────────────────────────────

/// What is saved is what is loaded again, from wherever the file stands.
pub proof fn law_saved_state_loads_back(
    saved: SyncState,
    file: StateFile,
    path: String,
    loaded: SyncState,
)
    requires
        call_ensures(SyncState::save, (&saved,), file),
        call_ensures(SyncState::load, (Some(file), path), loaded),
    ensures
        loaded@ == saved@,
        loaded.file_path() == path@,
{
}

/// To record or to forget one card leaves every other card as it is, where the identifiers of
/// the notes have no colon in them.
pub proof fn law_cards_are_independent(
    state: StateModel,
    note_id: Seq<char>,
    fp: Seq<char>,
    other_id: Seq<char>,
    other_fp: Seq<char>,
    anki_id: u64,
    hash: Seq<char>,
)
    requires
        !note_id.contains(':'),
        !other_id.contains(':'),
        note_id != other_id || fp != other_fp,
    ensures
        ({
            let key = key_of(note_id, fp);
            let other = key_of(other_id, other_fp);
            let ids = state.cards.insert(key, anki_id);
            let hashes = state.hashes.insert(key, hash);
            &&& ids.contains_key(other) == state.cards.contains_key(other)
            &&& ids.contains_key(other) ==> ids[other] == state.cards[other]
            &&& hashes.contains_key(other) == state.hashes.contains_key(other)
            &&& hashes.contains_key(other) ==> hashes[other] == state.hashes[other]
            &&& state.cards.remove(key).contains_key(other) == state.cards.contains_key(other)
            &&& state.hashes.remove(key).contains_key(other) == state.hashes.contains_key(other)
        }),
{
    if key_of(note_id, fp) == key_of(other_id, other_fp) {
        law_keys_tell_cards_apart(note_id, fp, other_id, other_fp);
    }
}

} // verus!
