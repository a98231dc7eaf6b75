//! What the commands of the command line tell.

use vstd::prelude::*;

use crate::apply;
use crate::apply_laws;
use crate::card_note;
use crate::chars;
use crate::config::Config;
use crate::lists;
use crate::parser;
use crate::parser::{Card, CardKind, CardModel, Sides};
use crate::scope;
use crate::scope::SourceNote;
use crate::state;
use crate::state::{KnownCard, SyncState};
use crate::sync::SyncReport;
use crate::text;
use crate::text_map;
use crate::text_map::TextMap;

verus! {

// ── Addresses ────────────────────────────────────────────────────────────────

/// Where AnkiConnect listens: as the command line or the environment says, else as the settings
/// say, else at the usual address.
pub open spec fn anki_url_of(given: Option<Seq<char>>, configured: Option<Seq<char>>) -> Seq<char> {
    match given {
        Some(url) => url,
        None => match configured {
            Some(url) => url,
            None => "http://127.0.0.1:8765"@,
        },
    }
}

/// Where AnkiConnect listens.
pub fn anki_url(given: Option<String>, settings: &Config) -> (url: String)
    ensures
        url@ == anki_url_of(text::opt_text(given), settings@.anki_url),
{
    match given {
        Some(url) => url,
        None => match &settings.anki_url {
            Some(url) => url.clone(),
            None => "http://127.0.0.1:8765".to_owned(),
        },
    }
}

// ── Sync ─────────────────────────────────────────────────────────────────────

/// What a run has come to.
pub open spec fn summary_text(report: SyncReport, dry_run: bool) -> Seq<char> {
    if dry_run {
        "[dry-run] "@ + text::decimal(report.added as nat) + " to add, "@ + text::decimal(
            report.updated as nat,
        ) + " to update, "@ + text::decimal(report.deleted as nat) + " to delete"@
    } else {
        "Sync complete: "@ + text::decimal(report.added as nat) + " added, "@ + text::decimal(
            report.updated as nat,
        ) + " updated, "@ + text::decimal(report.deleted as nat) + " deleted, "@ + text::decimal(
            report.skipped as nat,
        ) + " unchanged"@
    }
}

/// Tells what a run has come to.
pub fn summary_line(report: &SyncReport, dry_run: bool) -> (line: String)
    ensures
        line@ == summary_text(*report, dry_run),
{
    let added = chars::decimal(report.added as u64);
    let updated = chars::decimal(report.updated as u64);
    let deleted = chars::decimal(report.deleted as u64);
    let mut line = String::new();
    if dry_run {
        line.append("[dry-run] ");
        line.append(added.as_str());
        line.append(" to add, ");
        line.append(updated.as_str());
        line.append(" to update, ");
        line.append(deleted.as_str());
        line.append(" to delete");
    } else {
        line.append("Sync complete: ");
        line.append(added.as_str());
        line.append(" added, ");
        line.append(updated.as_str());
        line.append(" updated, ");
        line.append(deleted.as_str());
        line.append(" deleted, ");
        line.append(chars::decimal(report.skipped as u64).as_str());
        line.append(" unchanged");
    }
    assert(line@ == summary_text(*report, dry_run));
    line
}

// ── List ─────────────────────────────────────────────────────────────────────

/// A card in the list: its kind and the first seventy characters of its prompt. An ellipsis
/// follows where these take seventy bytes or more.
pub open spec fn card_text(card: CardModel) -> Seq<char> {
    let preview = card_note::shortened(card_note::texts_of(card)[0], 70);
    "  ["@ + (match card.kind {
        Sides::Basic { .. } => "basic"@,
        Sides::Cloze { .. } => "cloze"@,
    }) + "] "@ + preview + (if vstd::utf8::encode_utf8(preview).len() < 70 {
        Seq::empty()
    } else {
        "…"@
    })
}

/// A card in the list.
pub fn card_line(card: &Card) -> (line: String)
    ensures
        line@ == card_text(card@),
{
    let (kind, prompt) = match &card.kind {
        CardKind::Basic { front, .. } => ("basic", front),
        CardKind::Cloze { text } => ("cloze", text),
    };
    let prompt_chars = chars::to_chars(prompt.as_str());
    let preview = if prompt_chars.len() > 70 {
        chars::from_chars(chars::head(prompt_chars.as_slice(), 70))
    } else {
        prompt.clone()
    };
    let mut line = String::new();
    line.append("  [");
    line.append(kind);
    line.append("] ");
    line.append(preview.as_str());
    if preview.as_str().as_bytes().len() >= 70 {
        line.append("…");
    }
    assert(line@ == card_text(card@));
    line
}

/// A note in the list, and its cards. A note without cards is left out.
pub open spec fn note_texts(source: SourceNote) -> Seq<Seq<char>> {
    let cards = scope::cards_in(source);
    if cards.len() == 0 {
        Seq::empty()
    } else {
        seq![source.note.title@ + " ("@ + text::decimal(cards.len()) + " card(s))"@]
            + cards.map_values(|card: CardModel| card_text(card))
    }
}

/// Some notes in the list.
pub open spec fn notes_texts(notes: Seq<SourceNote>) -> Seq<Seq<char>>
    decreases notes.len(),
{
    if notes.len() == 0 {
        Seq::empty()
    } else {
        notes_texts(notes.drop_last()) + note_texts(notes.last())
    }
}

/// How many cards some notes have.
pub open spec fn card_total(notes: Seq<SourceNote>) -> nat
    decreases notes.len(),
{
    if notes.len() == 0 {
        0
    } else {
        card_total(notes.drop_last()) + scope::cards_in(notes.last()).len()
    }
}

/// The list of all cards.
pub open spec fn list_texts(notes: Seq<SourceNote>) -> Seq<Seq<char>> {
    if notes.len() == 0 {
        seq!["No notes found."@]
    } else {
        notes_texts(notes).push(
            "\n"@ + text::decimal(card_total(notes)) + " card(s) across "@ + text::decimal(
                notes.len(),
            ) + " note(s)"@,
        )
    }
}

/// Lists the cards of some notes.
pub fn list_lines(notes: &Vec<SourceNote>) -> (lines: Vec<String>)
    ensures
        text::texts(lines@) == list_texts(notes@),
{
    let mut lines: Vec<String> = Vec::new();
    if notes.len() == 0 {
        lines.push("No notes found.".to_owned());
        assert(text::texts(lines@) =~= list_texts(notes@));
        return lines;
    }
    let mut total: usize = 0;
    assert(text::texts(lines@) =~= notes_texts(notes@.take(0)));
    for i in 0..notes.len()
        invariant
            text::texts(lines@) == notes_texts(notes@.take(i as int)),
            total == card_total(notes@.take(i as int)),
            total <= lines@.len(),
    {
        proof {
            assert(notes@.take(i + 1).drop_last() == notes@.take(i as int));
            assert(notes@.take(i + 1).last() == notes@[i as int]);
        }
        let source = &notes[i];
        let cards = parser::parse_cards(&source.note, &source.body);
        let ghost models = scope::cards_in(*source);
        assert(cards@.len() == parser::card_models(cards@).len());
        if cards.len() > 0 {
            let ghost before = text::texts(lines@);
            let mut heading = source.note.title.clone();
            heading.append(" (");
            heading.append(chars::decimal(cards.len() as u64).as_str());
            heading.append(" card(s))");
            let ghost heading_text = heading@;
            assert(heading_text == source.note.title@ + " ("@ + text::decimal(models.len())
                + " card(s))"@);
            lines.push(heading);
            let ghost texts = models.map_values(|card: CardModel| card_text(card));
            assert(text::texts(lines@) =~= before + (seq![heading_text] + texts.take(0)));
            for j in 0..cards.len()
                invariant
                    models == parser::card_models(cards@),
                    texts == models.map_values(|card: CardModel| card_text(card)),
                    text::texts(lines@) == before + (seq![heading_text] + texts.take(j as int)),
                    lines@.len() == before.len() + 1 + j,
            {
                let ghost previous = lines@;
                lines.push(card_line(&cards[j]));
                assert(texts[j as int] == card_text(cards@[j as int]@));
                assert(text::texts(lines@) =~= text::texts(previous).push(texts[j as int]));
                assert(before + (seq![heading_text] + texts.take(j + 1)) =~= (before + (
                seq![heading_text] + texts.take(j as int))).push(texts[j as int]));
            }
            assert(texts.take(texts.len() as int) == texts);
            assert(lines.len() >= total + cards.len());
            total = total + cards.len();
        } else {
            assert(text::texts(lines@) + note_texts(*source) =~= text::texts(lines@));
        }
    }
    assert(notes@.take(notes@.len() as int) == notes@);
    let mut last = "\n".to_owned();
    last.append(chars::decimal(total as u64).as_str());
    last.append(" card(s) across ");
    last.append(chars::decimal(notes.len() as u64).as_str());
    last.append(" note(s)");
    let ghost before = lines@;
    let ghost last_text = last@;
    lines.push(last);
    assert(text::texts(lines@) =~= text::texts(before).push(last_text));
    lines
}

// ── Status ───────────────────────────────────────────────────────────────────

/// How many of the cards stand in a note.
pub open spec fn count_of(listed: Seq<KnownCard>, note_id: Seq<char>) -> nat
    decreases listed.len(),
{
    if listed.len() == 0 {
        0
    } else {
        count_of(listed.drop_last(), note_id) + if listed.last().note_id == note_id {
            1nat
        } else {
            0nat
        }
    }
}

/// A note with more cards comes first; of two with as many, the one whose identifier comes first.
pub open spec fn comes_before(a: (Seq<char>, nat), b: (Seq<char>, nat)) -> bool {
    a.1 > b.1 || (a.1 == b.1 && text::text_less(a.0, b.0))
}

/// The notes stand in their order.
pub open spec fn in_order(list: Seq<(Seq<char>, nat)>) -> bool {
    forall|i: int, j: int|
        0 <= i < j < list.len() ==> comes_before(#[trigger] list[i], #[trigger] list[j])
}

/// What a list of notes and the numbers of their cards says.
pub open spec fn count_models(list: Seq<(String, usize)>) -> Seq<(Seq<char>, nat)> {
    Seq::new(list.len(), |i: int| (list[i].0@, list[i].1 as nat))
}

/// The list holds each note that has cards, with their number, and no others.
pub open spec fn counts_are(list: Seq<(Seq<char>, nat)>, listed: Seq<KnownCard>) -> bool {
    forall|entry: (Seq<char>, nat)| #[trigger]
        list.contains(entry) <==> entry.1 > 0 && entry.1 == count_of(listed, entry.0)
}

/// The number of cards that stand in a note.
fn count_cards(list: &Vec<(String, String, u64)>, note_id: &str) -> (count: usize)
    ensures
        count == count_of(state::known_models(list@), note_id@),
        count <= list@.len(),
{
    let ghost listed = state::known_models(list@);
    let mut count: usize = 0;
    for i in 0..list.len()
        invariant
            listed == state::known_models(list@),
            count == count_of(listed.take(i as int), note_id@),
            count <= i,
    {
        assert(listed.take(i + 1).drop_last() == listed.take(i as int));
        if chars::same_text(list[i].0.as_str(), note_id) {
            count = count + 1;
        }
    }
    assert(listed.take(listed.len() as int) == listed);
    count
}

/// A note that has cards stands among the notes of the cards, and only such a one.
proof fn lemma_count_of(listed: Seq<KnownCard>, note_id: Seq<char>)
    ensures
        count_of(listed, note_id) > 0 <==> listed.map_values(
            |card: KnownCard| card.note_id,
        ).contains(note_id),
    decreases listed.len(),
{
    let ids = listed.map_values(|card: KnownCard| card.note_id);
    if listed.len() > 0 {
        let front = listed.drop_last();
        let front_ids = front.map_values(|card: KnownCard| card.note_id);
        lemma_count_of(front, note_id);
        assert(ids =~= front_ids.push(listed.last().note_id));
        lists::lemma_push_contains(front_ids, listed.last().note_id);
    }
}

/// Puts a note in its place among those that stand in their order.
fn insert_count(list: &mut Vec<(String, usize)>, note_id: String, count: usize)
    requires
        in_order(count_models(old(list)@)),
        forall|j: int| 0 <= j < old(list)@.len() ==> (#[trigger] old(list)@[j]).0@ != note_id@,
    ensures
        in_order(count_models(final(list)@)),
        forall|entry: (Seq<char>, nat)| #[trigger]
            count_models(final(list)@).contains(entry) <==> count_models(old(list)@).contains(entry)
                || entry == (note_id@, count as nat),
{
    let ghost before = count_models(list@);
    let ghost entry = (note_id@, count as nat);
    let mut place: usize = 0;
    while place < list.len() && (list[place].1 > count || (list[place].1 == count
        && chars::text_less(list[place].0.as_str(), note_id.as_str())))
        invariant
            place <= list@.len(),
            before == count_models(list@),
            list@ == old(list)@,
            entry == (note_id@, count as nat),
            forall|j: int| 0 <= j < place ==> comes_before(#[trigger] before[j], entry),
        ensures
            place < list@.len() ==> !comes_before(before[place as int], entry),
        decreases list@.len() - place,
    {
        assert(comes_before(before[place as int], entry));
        place = place + 1;
    }
    list.insert(place, (note_id, count));
    proof {
        let after = count_models(list@);
        assert(after =~= before.insert(place as int, entry));
        if place < before.len() {
            text::lemma_text_less_total(before[place as int].0, entry.0);
            assert(old(list)@[place as int].0@ != entry.0);
            assert(comes_before(entry, before[place as int]));
        }
        assert forall|j: int| place <= j < before.len() implies comes_before(
            entry,
            #[trigger] before[j],
        ) by {
            if j > place {
                assert(comes_before(before[place as int], before[j]));
                lemma_before_transitive(entry, before[place as int], before[j]);
            }
        }
        assert forall|i: int, j: int| 0 <= i < j < after.len() implies comes_before(
            #[trigger] after[i],
            #[trigger] after[j],
        ) by {
            let old_i = if i < place {
                i
            } else {
                i - 1
            };
            let old_j = if j < place {
                j
            } else {
                j - 1
            };
            if i == place {
                assert(comes_before(entry, before[old_j]));
            } else if j == place {
                assert(comes_before(before[old_i], entry));
            } else {
                assert(comes_before(before[old_i], before[old_j]));
            }
        }
        assert forall|x: (Seq<char>, nat)| #[trigger]
            after.contains(x) <==> before.contains(x) || x == entry by {
            if before.contains(x) {
                let i = choose|i: int| 0 <= i < before.len() && before[i] == x;
                if i < place {
                    assert(after[i] == x);
                } else {
                    assert(after[i + 1] == x);
                }
            }
            if x == entry {
                assert(after[place as int] == x);
            }
            if after.contains(x) && x != entry {
                let i = choose|i: int| 0 <= i < after.len() && after[i] == x;
                if i < place {
                    assert(before[i] == x);
                } else {
                    assert(before[i - 1] == x);
                }
            }
        }
    }
}

proof fn lemma_before_transitive(a: (Seq<char>, nat), b: (Seq<char>, nat), c: (Seq<char>, nat))
    requires
        comes_before(a, b),
        comes_before(b, c),
    ensures
        comes_before(a, c),
{
    if a.1 == b.1 && b.1 == c.1 {
        text::lemma_text_less_transitive(a.0, b.0, c.0);
    }
}

/// Counts the tracked cards of each note. The note with the most cards comes first.
pub fn note_counts(list: &Vec<(String, String, u64)>) -> (counts: Vec<(String, usize)>)
    ensures
        in_order(count_models(counts@)),
        counts_are(count_models(counts@), state::known_models(list@)),
{
    let ghost listed = state::known_models(list@);
    let ghost ids = listed.map_values(|card: KnownCard| card.note_id);
    let mut all: Vec<String> = Vec::new();
    for i in 0..list.len()
        invariant
            listed == state::known_models(list@),
            ids == listed.map_values(|card: KnownCard| card.note_id),
            text::texts(all@) == ids.take(i as int),
    {
        let ghost before = all@;
        all.push(list[i].0.clone());
        assert(ids[i as int] == list@[i as int].0@);
        assert(text::texts(all@) =~= text::texts(before).push(ids[i as int]));
        assert(ids.take(i + 1) =~= ids.take(i as int).push(ids[i as int]));
    }
    assert(ids.take(ids.len() as int) == ids);
    let notes = card_note::dedup_preserve_order(all);
    let ghost names = text::texts(notes@);
    proof {
        card_note::lemma_distinct(ids);
    }
    let mut counts: Vec<(String, usize)> = Vec::new();
    for i in 0..notes.len()
        invariant
            listed == state::known_models(list@),
            names == text::texts(notes@),
            names.no_duplicates(),
            in_order(count_models(counts@)),
            forall|entry: (Seq<char>, nat)| #[trigger]
                count_models(counts@).contains(entry) <==> names.take(i as int).contains(entry.0)
                    && entry.1 == count_of(listed, entry.0),
    {
        let ghost before = counts@;
        let ghost entry = (names[i as int], count_of(listed, names[i as int]));
        let count = count_cards(list, notes[i].as_str());
        proof {
            lists::lemma_take_contains(names, i as int);
            assert forall|j: int| 0 <= j < counts@.len() implies (#[trigger] counts@[j]).0@
                != notes@[i as int]@ by {
                let other = count_models(counts@)[j];
                assert(count_models(counts@).contains(other));
                let k = choose|k: int|
                    0 <= k < names.take(i as int).len() && names.take(i as int)[k] == other.0;
                assert(names[k] != names[i as int]);
            }
        }
        insert_count(&mut counts, notes[i].clone(), count);
        assert forall|other: (Seq<char>, nat)| #[trigger]
            count_models(counts@).contains(other) <==> names.take(i + 1).contains(other.0)
                && other.1 == count_of(listed, other.0) by {
            assert(count_models(counts@).contains(other) <==> count_models(before).contains(other)
                || other == entry);
        }
    }
    proof {
        assert(names.take(names.len() as int) == names);
        assert forall|entry: (Seq<char>, nat)| #[trigger]
            count_models(counts@).contains(entry) <==> entry.1 > 0 && entry.1 == count_of(
                listed,
                entry.0,
            ) by {
            lemma_count_of(listed, entry.0);
        }
    }
    counts
}

/// A number with spaces before it, as many as it takes to reach three characters.
pub open spec fn aligned(n: nat) -> Seq<char> {
    let digits = text::decimal(n);
    if digits.len() == 1 {
        "  "@ + digits
    } else if digits.len() == 2 {
        " "@ + digits
    } else {
        digits
    }
}

/// The title of a note, or its identifier where no title is known.
pub open spec fn label_of(titles: Map<Seq<char>, Seq<char>>, note_id: Seq<char>) -> Seq<char> {
    if titles.contains_key(note_id) {
        titles[note_id]
    } else {
        note_id
    }
}

/// A note and the number of its tracked cards.
pub open spec fn count_text(
    entry: (Seq<char>, nat),
    titles: Map<Seq<char>, Seq<char>>,
) -> Seq<char> {
    "  "@ + aligned(entry.1) + " card(s)  "@ + label_of(titles, entry.0)
}

/// What is tracked.
pub open spec fn status_texts(
    total: nat,
    counts: Seq<(Seq<char>, nat)>,
    titles: Map<Seq<char>, Seq<char>>,
    path: Seq<char>,
) -> Seq<Seq<char>> {
    if total == 0 {
        seq!["No cards tracked. Run `bear-anki sync` to get started."@]
    } else {
        (seq![
            text::decimal(total) + " card(s) tracked across "@ + text::decimal(counts.len())
                + " note(s):"@,
        ] + counts.map_values(|entry: (Seq<char>, nat)| count_text(entry, titles))).push(
            "\nState file: "@ + path,
        )
    }
}

/// A note and the number of its tracked cards.
fn count_line(note_id: &str, count: usize, titles: &TextMap<String>) -> (line: String)
    ensures
        line@ == count_text((note_id@, count as nat), text_map::text_values(titles@)),
{
    let digits = chars::decimal(count as u64);
    let width = digits.as_str().unicode_len();
    let mut line = "  ".to_owned();
    if width == 1 {
        line.append("  ");
    } else if width == 2 {
        line.append(" ");
    }
    line.append(digits.as_str());
    line.append(" card(s)  ");
    match titles.get(note_id) {
        Some(title) => line.append(title.as_str()),
        None => line.append(note_id),
    }
    assert(line@ =~= count_text((note_id@, count as nat), text_map::text_values(titles@)));
    line
}

/// Tells what is tracked: how many cards in all, how many of each note, and where the state file
/// stands.
pub fn status_lines(
    total: usize,
    counts: &Vec<(String, usize)>,
    titles: &TextMap<String>,
    path: &str,
) -> (lines: Vec<String>)
    ensures
        text::texts(lines@) == status_texts(
            total as nat,
            count_models(counts@),
            text_map::text_values(titles@),
            path@,
        ),
{
    let ghost names = text_map::text_values(titles@);
    let ghost models = count_models(counts@);
    let mut lines: Vec<String> = Vec::new();
    if total == 0 {
        lines.push("No cards tracked. Run `bear-anki sync` to get started.".to_owned());
        assert(text::texts(lines@) =~= status_texts(0, models, names, path@));
        return lines;
    }
    let mut first = chars::decimal(total as u64);
    first.append(" card(s) tracked across ");
    first.append(chars::decimal(counts.len() as u64).as_str());
    first.append(" note(s):");
    let ghost first_text = first@;
    assert(first_text == text::decimal(total as nat) + " card(s) tracked across "@ + text::decimal(
        models.len(),
    ) + " note(s):"@);
    lines.push(first);
    let ghost all = models.map_values(|entry: (Seq<char>, nat)| count_text(entry, names));
    assert(text::texts(lines@) =~= seq![first_text] + all.take(0));
    for i in 0..counts.len()
        invariant
            names == text_map::text_values(titles@),
            models == count_models(counts@),
            all == models.map_values(|entry: (Seq<char>, nat)| count_text(entry, names)),
            text::texts(lines@) == seq![first_text] + all.take(i as int),
    {
        let ghost before = lines@;
        lines.push(count_line(counts[i].0.as_str(), counts[i].1, titles));
        assert(all[i as int] == count_text(models[i as int], names));
        assert(text::texts(lines@) =~= text::texts(before).push(all[i as int]));
        assert(seq![first_text] + all.take(i + 1) =~= (seq![first_text] + all.take(
            i as int,
        )).push(all[i as int]));
    }
    assert(all.take(all.len() as int) == all);
    let mut last = "\nState file: ".to_owned();
    last.append(path);
    let ghost last_text = last@;
    let ghost before = lines@;
    lines.push(last);
    assert(text::texts(lines@) =~= text::texts(before).push(last_text));
    lines
}

// ── Reset ────────────────────────────────────────────────────────────────────

/// The notes of the tracked cards.
pub fn tracked_ids(list: &Vec<(String, String, u64)>) -> (ids: Vec<u64>)
    ensures
        ids@ == state::known_models(list@).map_values(|card: KnownCard| card.anki_id),
{
    let ghost all = state::known_models(list@).map_values(|card: KnownCard| card.anki_id);
    let mut ids: Vec<u64> = Vec::new();
    for i in 0..list.len()
        invariant
            all == state::known_models(list@).map_values(|card: KnownCard| card.anki_id),
            ids@ == all.take(i as int),
    {
        ids.push(list[i].2);
        assert(all.take(i + 1) =~= all.take(i as int).push(all[i as int]));
    }
    assert(all.take(all.len() as int) == all);
    ids
}

/// Forgets all tracked cards.
pub fn clear_state(known: &mut SyncState)
    ensures
        final(known)@ == apply::without(old(known)@, old(known).listed()),
        final(known).file_path() == old(known).file_path(),
        forall|card: KnownCard| !#[trigger] state::is_known(final(known)@, card),
{
    let list = known.all_keys();
    apply::forget(known, &list);
    assert forall|card: KnownCard| !#[trigger] state::is_known(known@, card) by {
        let key = state::key_of(card.note_id, card.fp);
        let listed = old(known).listed();
        apply_laws::lemma_without(old(known)@, listed, key);
        if state::is_known(known@, card) {
            assert(state::is_known(old(known)@, card));
            assert(listed.contains(card));
            let x = choose|x: int| 0 <= x < listed.len() && listed[x] == card;
            assert(state::key_of(listed[x].note_id, listed[x].fp) == key);
        }
    }
}

/// What is told of notes that were deleted.
pub fn deleted_line(count: usize) -> (line: String)
    ensures
        line@ == "Deleted "@ + text::decimal(count as nat) + " note(s) from Anki."@,
{
    let mut line = "Deleted ".to_owned();
    line.append(chars::decimal(count as u64).as_str());
    line.append(" note(s) from Anki.");
    line
}

/// What is told where nothing is tracked.
pub fn nothing_to_reset_line() -> (line: String)
    ensures
        line@ == "Nothing to reset — state is already empty."@,
{
    "Nothing to reset — state is already empty.".to_owned()
}

/// What is told once the state is cleared.
pub open spec fn cleared_text(count: nat, deleted: bool) -> Seq<char> {
    "State cleared ("@ + text::decimal(count) + " card(s) removed)."@ + if deleted {
        Seq::empty()
    } else {
        " Anki notes were NOT deleted (pass --delete-anki-notes to remove them too)."@
    }
}

/// What is told once the state is cleared.
pub fn cleared_line(count: usize, deleted: bool) -> (line: String)
    ensures
        line@ == cleared_text(count as nat, deleted),
{
    let mut line = "State cleared (".to_owned();
    line.append(chars::decimal(count as u64).as_str());
    line.append(" card(s) removed).");
    if !deleted {
        line.append(" Anki notes were NOT deleted (pass --delete-anki-notes to remove them too).");
    }
    assert(line@ == cleared_text(count as nat, deleted));
    line
}

} // verus!
