//! What is told to the user during a run.

use vstd::prelude::*;

use crate::chars;
use crate::text;

verus! {

/// A line for the user, or a warning.
#[derive(Debug, PartialEq, Eq)]
pub enum Line {
    Out(String),
    Warning(String),
}

/// What a `Line` says.
pub enum LineModel {
    Out(Seq<char>),
    Warning(Seq<char>),
}

impl View for Line {
    type V = LineModel;

    open spec fn view(&self) -> LineModel {
        match self {
            Line::Out(line) => LineModel::Out(line@),
            Line::Warning(line) => LineModel::Warning(line@),
        }
    }
}

/// What a list of lines says.
pub open spec fn line_models(lines: Seq<Line>) -> Seq<LineModel> {
    Seq::new(lines.len(), |i: int| lines[i]@)
}

/// A text as Rust writes it for a programmer: in double quotes, with escapes.
pub uninterp spec fn debug_text(text: Seq<char>) -> Seq<char>;

/// The `Debug` format of `str` writes the text in double quotes, with escapes. What it writes
/// depends on the text alone.
#[verifier::external_body]
fn debug_format(text: &str) -> (quoted: String)
    ensures
        quoted@ == debug_text(text@),
{
    format!("{text:?}")
}

/// A card that has not changed.
pub open spec fn skip_text(deck: Seq<char>, preview: Seq<char>) -> Seq<char> {
    "[skip]   "@ + deck + " — "@ + preview
}

/// A card that has not changed.
pub fn skip_line(deck: &str, preview: &str) -> (line: String)
    ensures
        line@ == skip_text(deck@, preview@),
{
    let mut line = String::new();
    line.append("[skip]   ");
    line.append(deck);
    line.append(" — ");
    line.append(preview);
    assert(line@ == skip_text(deck@, preview@));
    line
}

/// A card that a real run would update.
pub open spec fn would_update_text(anki_id: nat, deck: Seq<char>) -> Seq<char> {
    "[dry-run] would update Anki note "@ + text::decimal(anki_id) + " (deck: "@ + deck + ")"@
}

/// A card that a real run would update.
pub fn would_update_line(anki_id: u64, deck: &str) -> (line: String)
    ensures
        line@ == would_update_text(anki_id as nat, deck@),
{
    let mut line = String::new();
    line.append("[dry-run] would update Anki note ");
    line.append(chars::decimal(anki_id).as_str());
    line.append(" (deck: ");
    line.append(deck);
    line.append(")");
    assert(line@ == would_update_text(anki_id as nat, deck@));
    line
}

/// A card that a real run would add.
pub open spec fn would_add_text(deck: Seq<char>, kind: Seq<char>) -> Seq<char> {
    "[dry-run] would add card to deck "@ + debug_text(deck) + " ("@ + kind + ")"@
}

/// A card that a real run would add.
pub fn would_add_line(deck: &str, kind: &str) -> (line: String)
    ensures
        line@ == would_add_text(deck@, kind@),
{
    let mut line = String::new();
    line.append("[dry-run] would add card to deck ");
    line.append(debug_format(deck).as_str());
    line.append(" (");
    line.append(kind);
    line.append(")");
    assert(line@ == would_add_text(deck@, kind@));
    line
}

/// How many notes a real run would delete.
pub open spec fn would_delete_text(count: nat) -> Seq<char> {
    "[dry-run] would delete "@ + text::decimal(count) + " Anki note(s)"@
}

/// How many notes a real run would delete.
pub fn would_delete_line(count: usize) -> (line: String)
    ensures
        line@ == would_delete_text(count as nat),
{
    let mut line = String::new();
    line.append("[dry-run] would delete ");
    line.append(chars::decimal(count as u64).as_str());
    line.append(" Anki note(s)");
    assert(line@ == would_delete_text(count as nat));
    line
}

/// A card that is made ready to be updated.
pub open spec fn prepare_update_text(number: nat, total: nat, deck: Seq<char>, preview: Seq<char>) -> Seq<char> {
    "[prepare update] "@ + text::decimal(number) + "/"@ + text::decimal(total) + " "@ + deck + " — "@ + preview
}

/// A card that is made ready to be updated.
pub fn prepare_update_line(number: usize, total: usize, deck: &str, preview: &str) -> (line: String)
    ensures
        line@ == prepare_update_text(number as nat, total as nat, deck@, preview@),
{
    let mut line = String::new();
    line.append("[prepare update] ");
    line.append(chars::decimal(number as u64).as_str());
    line.append("/");
    line.append(chars::decimal(total as u64).as_str());
    line.append(" ");
    line.append(deck);
    line.append(" — ");
    line.append(preview);
    assert(line@ == prepare_update_text(number as nat, total as nat, deck@, preview@));
    line
}

/// A card that is made ready to be added.
pub open spec fn prepare_add_text(number: nat, total: nat, deck: Seq<char>, preview: Seq<char>) -> Seq<char> {
    "[prepare add]    "@ + text::decimal(number) + "/"@ + text::decimal(total) + " "@ + deck + " — "@ + preview
}

/// A card that is made ready to be added.
pub fn prepare_add_line(number: usize, total: usize, deck: &str, preview: &str) -> (line: String)
    ensures
        line@ == prepare_add_text(number as nat, total as nat, deck@, preview@),
{
    let mut line = String::new();
    line.append("[prepare add]    ");
    line.append(chars::decimal(number as u64).as_str());
    line.append("/");
    line.append(chars::decimal(total as u64).as_str());
    line.append(" ");
    line.append(deck);
    line.append(" — ");
    line.append(preview);
    assert(line@ == prepare_add_text(number as nat, total as nat, deck@, preview@));
    line
}

/// A card that will be updated.
pub open spec fn update_text(deck: Seq<char>, preview: Seq<char>) -> Seq<char> {
    "[update] "@ + deck + " — "@ + preview
}

/// A card that will be updated.
pub fn update_line(deck: &str, preview: &str) -> (line: String)
    ensures
        line@ == update_text(deck@, preview@),
{
    let mut line = String::new();
    line.append("[update] ");
    line.append(deck);
    line.append(" — ");
    line.append(preview);
    assert(line@ == update_text(deck@, preview@));
    line
}

/// A card that will be added.
pub open spec fn add_text(deck: Seq<char>, preview: Seq<char>) -> Seq<char> {
    "[add]    "@ + deck + " — "@ + preview
}

/// A card that will be added.
pub fn add_line(deck: &str, preview: &str) -> (line: String)
    ensures
        line@ == add_text(deck@, preview@),
{
    let mut line = String::new();
    line.append("[add]    ");
    line.append(deck);
    line.append(" — ");
    line.append(preview);
    assert(line@ == add_text(deck@, preview@));
    line
}

/// What the run is about.
pub open spec fn found_text(notes: nat, cards: nat) -> Seq<char> {
    "Found "@ + text::decimal(notes) + " note(s), "@ + text::decimal(cards) + " card(s) in sync scope."@
}

/// What the run is about.
pub fn found_line(notes: usize, cards: usize) -> (line: String)
    ensures
        line@ == found_text(notes as nat, cards as nat),
{
    let mut line = String::new();
    line.append("Found ");
    line.append(chars::decimal(notes as u64).as_str());
    line.append(" note(s), ");
    line.append(chars::decimal(cards as u64).as_str());
    line.append(" card(s) in sync scope.");
    assert(line@ == found_text(notes as nat, cards as nat));
    line
}

/// The updates begin.
pub open spec fn updating_text(count: nat, batch: nat) -> Seq<char> {
    "Updating "@ + text::decimal(count) + " Anki note(s) in batches of up to "@ + text::decimal(batch) + "..."@
}

/// The updates begin.
pub fn updating_line(count: usize, batch: usize) -> (line: String)
    ensures
        line@ == updating_text(count as nat, batch as nat),
{
    let mut line = String::new();
    line.append("Updating ");
    line.append(chars::decimal(count as u64).as_str());
    line.append(" Anki note(s) in batches of up to ");
    line.append(chars::decimal(batch as u64).as_str());
    line.append("...");
    assert(line@ == updating_text(count as nat, batch as nat));
    line
}

/// The updates so far.
pub open spec fn updated_text(done: nat, total: nat) -> Seq<char> {
    "[update] "@ + text::decimal(done) + "/"@ + text::decimal(total) + " Anki note(s) updated"@
}

/// The updates so far.
pub fn updated_line(done: usize, total: usize) -> (line: String)
    ensures
        line@ == updated_text(done as nat, total as nat),
{
    let mut line = String::new();
    line.append("[update] ");
    line.append(chars::decimal(done as u64).as_str());
    line.append("/");
    line.append(chars::decimal(total as u64).as_str());
    line.append(" Anki note(s) updated");
    assert(line@ == updated_text(done as nat, total as nat));
    line
}

/// The additions begin.
pub open spec fn adding_text(count: nat, batch: nat) -> Seq<char> {
    "Adding "@ + text::decimal(count) + " Anki note(s) in batches of up to "@ + text::decimal(batch) + "..."@
}

/// The additions begin.
pub fn adding_line(count: usize, batch: usize) -> (line: String)
    ensures
        line@ == adding_text(count as nat, batch as nat),
{
    let mut line = String::new();
    line.append("Adding ");
    line.append(chars::decimal(count as u64).as_str());
    line.append(" Anki note(s) in batches of up to ");
    line.append(chars::decimal(batch as u64).as_str());
    line.append("...");
    assert(line@ == adding_text(count as nat, batch as nat));
    line
}

/// The additions so far.
pub open spec fn added_text(done: nat, total: nat) -> Seq<char> {
    "[add]    "@ + text::decimal(done) + "/"@ + text::decimal(total) + " Anki note(s) added"@
}

/// The additions so far.
pub fn added_line(done: usize, total: usize) -> (line: String)
    ensures
        line@ == added_text(done as nat, total as nat),
{
    let mut line = String::new();
    line.append("[add]    ");
    line.append(chars::decimal(done as u64).as_str());
    line.append("/");
    line.append(chars::decimal(total as u64).as_str());
    line.append(" Anki note(s) added");
    assert(line@ == added_text(done as nat, total as nat));
    line
}

/// The deletion begins.
pub open spec fn deleting_text(count: nat) -> Seq<char> {
    "[delete] "@ + text::decimal(count) + " stale Anki note(s)"@
}

/// The deletion begins.
pub fn deleting_line(count: usize) -> (line: String)
    ensures
        line@ == deleting_text(count as nat),
{
    let mut line = String::new();
    line.append("[delete] ");
    line.append(chars::decimal(count as u64).as_str());
    line.append(" stale Anki note(s)");
    assert(line@ == deleting_text(count as nat));
    line
}

/// A note that is missing in Anki.
pub open spec fn readding_text(anki_id: nat) -> Seq<char> {
    "bear-anki: note "@ + text::decimal(anki_id) + " not found in Anki, re-adding"@
}

/// A note that is missing in Anki.
pub fn readding_line(anki_id: u64) -> (line: String)
    ensures
        line@ == readding_text(anki_id as nat),
{
    let mut line = String::new();
    line.append("bear-anki: note ");
    line.append(chars::decimal(anki_id).as_str());
    line.append(" not found in Anki, re-adding");
    assert(line@ == readding_text(anki_id as nat));
    line
}

/// An image that could not be uploaded.
pub open spec fn upload_failed_text(filename: Seq<char>, reason: Seq<char>) -> Seq<char> {
    "bear-anki: failed to upload image "@ + filename + ": "@ + reason
}

/// An image that could not be uploaded.
pub fn upload_failed_line(filename: &str, reason: &str) -> (line: String)
    ensures
        line@ == upload_failed_text(filename@, reason@),
{
    let mut line = String::new();
    line.append("bear-anki: failed to upload image ");
    line.append(filename);
    line.append(": ");
    line.append(reason);
    assert(line@ == upload_failed_text(filename@, reason@));
    line
}

/// No title holds the wanted words.
pub open spec fn no_match_text(title: Seq<char>) -> Seq<char> {
    "bear-anki: no notes found matching "@ + debug_text(title)
}

/// No title holds the wanted words.
pub fn no_match_line(title: &str) -> (line: String)
    ensures
        line@ == no_match_text(title@),
{
    let mut line = String::new();
    line.append("bear-anki: no notes found matching ");
    line.append(debug_format(title).as_str());
    assert(line@ == no_match_text(title@));
    line
}

/// The warning that no title holds the wanted words, where there are any and no note was found.
pub fn no_match_warning(note_filter: Option<&str>, found: usize) -> (warning: Option<String>)
    ensures
        text::opt_text(warning) == match note_filter {
            Some(title) => if found == 0 {
                Some(no_match_text(title@))
            } else {
                None
            },
            None => None,
        },
{
    match note_filter {
        Some(title) => if found == 0 {
            Some(no_match_line(title))
        } else {
            None
        },
        None => None,
    }
}

/// A callout that does not make a card.
pub open spec fn malformed_text(title: Seq<char>, identifier: Seq<char>) -> Seq<char> {
    "bear-anki: skipping malformed callout in "@ + debug_text(title) + " ("@ + identifier + ")"@
}

/// A callout that does not make a card.
pub fn malformed_line(title: &str, identifier: &str) -> (line: String)
    ensures
        line@ == malformed_text(title@, identifier@),
{
    let mut line = String::new();
    line.append("bear-anki: skipping malformed callout in ");
    line.append(debug_format(title).as_str());
    line.append(" (");
    line.append(identifier);
    line.append(")");
    assert(line@ == malformed_text(title@, identifier@));
    line
}

} // verus!
