//! Cards in the text of a note: callout blocks under headings.

use vstd::prelude::*;
use vstd::slice::slice_subrange;

use crate::chars;
use crate::digest;
use crate::outline;
use crate::outline::{
    Block, CalloutBlock, HeadingOrder, HeadingOrders, NumberedHeading, Order, Place, Position,
};
use crate::text;

verus! {

// ── Cards and notes ──────────────────────────────────────────────────────────

/// The two sides of a card, or the one text of a cloze card.
#[derive(Debug, PartialEq, Eq)]
pub enum CardKind {
    Basic { front: String, back: String },
    Cloze { text: String },
}

/// A flashcard as it stands in a note.
#[derive(Debug, PartialEq, Eq)]
pub struct Card {
    pub kind: CardKind,
    pub deck: String,
    pub fingerprint: String,
    /// `card`, `tip`, `note`, `important` or `warning`.
    pub callout_type: String,
    pub sort_key: String,
    pub context: Vec<String>,
}

/// A note as Bear stores it.
#[derive(Debug, Clone, PartialEq, Eq)]
pub struct BearNote {
    pub identifier: String,
    pub title: String,
    pub text: String,
    pub pinned: bool,
    pub created_at: Option<i64>,
    pub modified_at: Option<i64>,
    pub tags: Vec<String>,
}

/// What a `CardKind` says.
pub enum Sides {
    Basic { front: Seq<char>, back: Seq<char> },
    Cloze { text: Seq<char> },
}

/// What a `Card` says.
pub struct CardModel {
    pub kind: Sides,
    pub deck: Seq<char>,
    pub fingerprint: Seq<char>,
    pub callout_type: Seq<char>,
    pub sort_key: Seq<char>,
    pub context: Seq<Seq<char>>,
}

impl View for CardKind {
    type V = Sides;

    open spec fn view(&self) -> Sides {
        match self {
            CardKind::Basic { front, back } => Sides::Basic { front: front@, back: back@ },
            CardKind::Cloze { text } => Sides::Cloze { text: text@ },
        }
    }
}

impl View for Card {
    type V = CardModel;

    open spec fn view(&self) -> CardModel {
        CardModel {
            kind: self.kind@,
            deck: self.deck@,
            fingerprint: self.fingerprint@,
            callout_type: self.callout_type@,
            sort_key: self.sort_key@,
            context: text::texts(self.context@),
        }
    }
}

/// What a list of cards says.
pub open spec fn card_models(cards: Seq<Card>) -> Seq<CardModel> {
    Seq::new(cards.len(), |i: int| cards[i]@)
}

impl Clone for CardKind {
    fn clone(&self) -> (copy: Self)
        ensures
            copy@ == self@,
    {
        match self {
            CardKind::Basic { front, back } => CardKind::Basic {
                front: front.clone(),
                back: back.clone(),
            },
            CardKind::Cloze { text } => CardKind::Cloze { text: text.clone() },
        }
    }
}

impl Clone for Card {
    fn clone(&self) -> (copy: Self)
        ensures
            copy@ == self@,
    {
        let copy = Card {
            kind: self.kind.clone(),
            deck: self.deck.clone(),
            fingerprint: self.fingerprint.clone(),
            callout_type: self.callout_type.clone(),
            sort_key: self.sort_key.clone(),
            context: chars::clone_all(&self.context),
        };
        assert(copy@.context == self@.context);
        copy
    }
}

// ── Comments ─────────────────────────────────────────────────────────────────

/// `input` without its HTML comments. A comment that is not closed reaches to the end.
pub open spec fn without_comments(input: Seq<char>) -> Seq<char>
    decreases input.len(),
{
    proof {
        lemma_comment_marks(input);
    }
    match text::find(input, "<!--"@) {
        None => input,
        Some(start) => match text::find(input.skip(start + 4), "-->"@) {
            None => input.take(start),
            Some(end) => input.take(start) + without_comments(input.skip(start + 4).skip(end + 3)),
        },
    }
}

/// The marks of a comment stand inside the text.
pub proof fn lemma_comment_marks(input: Seq<char>)
    ensures
        "<!--"@.len() == 4,
        "-->"@.len() == 3,
        text::find(input, "<!--"@) matches Some(start) ==> {
            &&& 0 <= start
            &&& start + 4 <= input.len()
            &&& text::find(input.skip(start + 4), "-->"@) matches Some(end) ==> 0 <= end && end + 3
                <= input.len() - start - 4
        },
{
    reveal_strlit("<!--");
    reveal_strlit("-->");
    text::lemma_find(input, "<!--"@);
    if let Some(start) = text::find(input, "<!--"@) {
        text::lemma_find(input.skip(start + 4), "-->"@);
    }
}

/// Takes the HTML comments out of a text.
pub fn strip_html_comments(input: &str) -> (stripped: String)
    ensures
        stripped@ == without_comments(input@),
{
    let input_chars = chars::to_chars(input);
    let open = chars::to_chars("<!--");
    let close = chars::to_chars("-->");
    proof {
        reveal_strlit("<!--");
        reveal_strlit("-->");
    }
    let mut stripped = String::new();
    let mut tail: &[char] = input_chars.as_slice();
    loop
        invariant
            open@ == "<!--"@,
            close@ == "-->"@,
            open@.len() == 4,
            close@.len() == 3,
            stripped@ + without_comments(tail@) == without_comments(input@),
        decreases tail@.len(),
    {
        match chars::find(tail, open.as_slice()) {
            None => {
                chars::push_chars(&mut stripped, tail);
                return stripped;
            },
            Some(start) => {
                chars::push_chars(&mut stripped, chars::head(tail, start));
                let after = chars::rest(tail, start + 4);
                match chars::find(after, close.as_slice()) {
                    None => {
                        return stripped;
                    },
                    Some(end) => {
                        tail = chars::rest(after, end + 3);
                    },
                }
            },
        }
    }
}

// ── Callouts ─────────────────────────────────────────────────────────────────

/// The type of a callout and what follows its mark on the line.
pub struct Callout {
    pub callout_type: Seq<char>,
    pub rest: Seq<char>,
}

/// The callout that a line opens, if it opens one.
pub open spec fn callout_of(line: Seq<char>) -> Option<Callout> {
    if let Some(rest) = text::strip_prefix(line, "> [!CARD]"@) {
        Some(Callout { callout_type: "card"@, rest })
    } else if let Some(rest) = text::strip_prefix(line, "> [!TIP]"@) {
        Some(Callout { callout_type: "tip"@, rest })
    } else if let Some(rest) = text::strip_prefix(line, "> [!NOTE]"@) {
        Some(Callout { callout_type: "note"@, rest })
    } else if let Some(rest) = text::strip_prefix(line, "> [!IMPORTANT]"@) {
        Some(Callout { callout_type: "important"@, rest })
    } else if let Some(rest) = text::strip_prefix(line, "> [!WARNING]"@) {
        Some(Callout { callout_type: "warning"@, rest })
    } else {
        None
    }
}

/// The type of the callout that a line opens, and what follows the mark on the line.
pub fn detect_callout(line: &str) -> (found: Option<(String, String)>)
    ensures
        found is Some == callout_of(line@) is Some,
        found matches Some(f) ==> callout_of(line@) == Some(
            (Callout { callout_type: f.0@, rest: f.1@ }),
        ),
{
    if let Some(rest) = chars::strip_prefix(line, "> [!CARD]") {
        Some(("card".to_owned(), rest))
    } else if let Some(rest) = chars::strip_prefix(line, "> [!TIP]") {
        Some(("tip".to_owned(), rest))
    } else if let Some(rest) = chars::strip_prefix(line, "> [!NOTE]") {
        Some(("note".to_owned(), rest))
    } else if let Some(rest) = chars::strip_prefix(line, "> [!IMPORTANT]") {
        Some(("important".to_owned(), rest))
    } else if let Some(rest) = chars::strip_prefix(line, "> [!WARNING]") {
        Some(("warning".to_owned(), rest))
    } else {
        None
    }
}

/// The title of a callout: the trimmed text after the mark and a space, unless it is empty.
pub open spec fn title_of(rest: Seq<char>) -> Option<Seq<char>> {
    match text::strip_prefix(rest, " "@) {
        Some(after) => if text::trim(after).len() > 0 {
            Some(text::trim(after))
        } else {
            None
        },
        None => None,
    }
}

/// The title of a callout, from what follows its mark.
pub fn callout_title(rest: &str) -> (title: Option<String>)
    ensures
        text::opt_text(title) == title_of(rest@),
{
    match chars::strip_prefix(rest, " ") {
        Some(after) => {
            let title = chars::trim(after.as_str());
            if title.as_str().is_empty() {
                None
            } else {
                Some(title)
            }
        },
        None => None,
    }
}

// ── Cloze deletions ──────────────────────────────────────────────────────────

/// `text` with each closed `{{blank}}` numbered, the first one as `{{c1::blank}}` where `next` is
/// 1. What follows an opening that is never closed stays as it is.
pub open spec fn numbered_blanks(text: Seq<char>, next: nat) -> Seq<char>
    decreases text.len(),
{
    proof {
        lemma_blank_marks(text);
    }
    match text::find(text, "{{"@) {
        None => text,
        Some(start) => match text::find(text.skip(start + 2), "}}"@) {
            None => text,
            Some(end) => text.take(start) + "{{c"@ + text::decimal(next) + "::"@ + text.skip(
                start + 2,
            ).take(end) + "}}"@ + numbered_blanks(text.skip(start + 2).skip(end + 2), next + 1),
        },
    }
}

/// The marks of a blank stand inside the text.
pub proof fn lemma_blank_marks(text: Seq<char>)
    ensures
        "{{"@.len() == 2,
        "}}"@.len() == 2,
        text::find(text, "{{"@) matches Some(start) ==> {
            &&& 0 <= start
            &&& start + 2 <= text.len()
            &&& text.skip(start) == "{{"@ + text.skip(start + 2)
            &&& text::find(text.skip(start + 2), "}}"@) matches Some(end) ==> 0 <= end && end + 2
                <= text.len() - start - 2
        },
{
    reveal_strlit("{{");
    reveal_strlit("}}");
    text::lemma_find(text, "{{"@);
    if let Some(start) = text::find(text, "{{"@) {
        text::lemma_find(text.skip(start + 2), "}}"@);
        assert(text.skip(start) == text.subrange(start, start + 2) + text.skip(start + 2));
    }
}

/// Numbers the `{{blanks}}` of a cloze text: `{{c1::…}}`, `{{c2::…}}` and so on.
pub fn convert_cloze(text: &str) -> (converted: String)
    ensures
        converted@ == numbered_blanks(text@, 1),
{
    let text_chars = chars::to_chars(text);
    let open = chars::to_chars("{{");
    let close = chars::to_chars("}}");
    proof {
        lemma_blank_marks(text@);
    }
    let mut converted = String::new();
    let mut tail: &[char] = text_chars.as_slice();
    let mut counter: u64 = 1;
    loop
        invariant
            open@ == "{{"@,
            close@ == "}}"@,
            open@.len() == 2,
            close@.len() == 2,
            counter + tail.len() <= text_chars.len() + 1,
            converted@ + numbered_blanks(tail@, counter as nat) == numbered_blanks(text@, 1),
        decreases tail@.len(),
    {
        match chars::find(tail, open.as_slice()) {
            None => {
                chars::push_chars(&mut converted, tail);
                return converted;
            },
            Some(start) => {
                let inner = chars::rest(tail, start + 2);
                match chars::find(inner, close.as_slice()) {
                    None => {
                        chars::push_chars(&mut converted, tail);
                        return converted;
                    },
                    Some(end) => {
                        chars::push_chars(&mut converted, chars::head(tail, start));
                        converted.append("{{c");
                        converted.append(chars::decimal(counter).as_str());
                        converted.append("::");
                        chars::push_chars(&mut converted, chars::head(inner, end));
                        converted.append("}}");
                        tail = chars::rest(inner, end + 2);
                        counter = counter + 1;
                    },
                }
            },
        }
    }
}

// ── Classification ───────────────────────────────────────────────────────────

/// The identity of a card: a digest of the text that identifies it.
pub open spec fn fingerprint_of(text: Seq<char>) -> Seq<char> {
    digest::short_hash_of(vstd::utf8::encode_utf8(text))
}

/// The identity of a card.
pub fn fingerprint(text: &str) -> (hash: String)
    ensures
        hash@ == fingerprint_of(text@),
        digest::is_short_hash(hash@),
{
    digest::short_hash(text.as_bytes())
}

/// Some line of the body opens a blank.
pub open spec fn has_cloze(body: Seq<Seq<char>>) -> bool {
    exists|i: int| 0 <= i < body.len() && text::contains(#[trigger] body[i], "{{"@)
}

/// The first line of the body, from `start` on, that is a separator.
pub open spec fn separator_from(body: Seq<Seq<char>>, start: int) -> Option<int>
    decreases body.len() - start,
{
    if start < 0 || start >= body.len() {
        None
    } else if text::trim(body[start]) == "---"@ {
        Some(start)
    } else {
        separator_from(body, start + 1)
    }
}

/// The sides of a card and the text that identifies it.
pub struct Content {
    pub kind: Sides,
    pub identity: Seq<char>,
}

/// What a callout with this title and these body lines holds. A body with a blank makes a cloze
/// card, whatever the title; else a title makes a basic card with the body as its back; else a
/// separator line divides the body into front and back. A callout without any of these, or with
/// an empty front, is no card.
pub open spec fn content_of(title: Option<Seq<char>>, body: Seq<Seq<char>>) -> Option<Content> {
    if has_cloze(body) {
        let raw = text::join(body, "\n"@);
        Some(Content { kind: Sides::Cloze { text: numbered_blanks(raw, 1) }, identity: raw })
    } else if let Some(front) = title {
        let back = text::trim(text::join(body, "\n"@));
        Some(Content { kind: Sides::Basic { front, back }, identity: front })
    } else if let Some(separator) = separator_from(body, 0) {
        let front = text::trim(text::join(body.take(separator), "\n"@));
        let back = text::trim(text::join(body.skip(separator + 1), "\n"@));
        if front.len() > 0 {
            Some(Content { kind: Sides::Basic { front, back }, identity: front })
        } else {
            None
        }
    } else {
        None
    }
}

/// Whether some line of the body opens a blank.
fn any_cloze(body_lines: &Vec<String>) -> (found: bool)
    ensures
        found == has_cloze(text::texts(body_lines@)),
{
    let ghost body = text::texts(body_lines@);
    for i in 0..body_lines.len()
        invariant
            body == text::texts(body_lines@),
            forall|j: int| 0 <= j < i ==> !text::contains(#[trigger] body[j], "{{"@),
    {
        if chars::contains(body_lines[i].as_str(), "{{") {
            assert(text::contains(body[i as int], "{{"@));
            return true;
        }
    }
    false
}

/// The first line of the body that is a separator.
fn separator_position(body_lines: &Vec<String>) -> (position: Option<usize>)
    ensures
        position is Some == separator_from(text::texts(body_lines@), 0) is Some,
        position matches Some(i) ==> separator_from(text::texts(body_lines@), 0) == Some(i as int)
            && i < body_lines@.len(),
{
    for i in 0..body_lines.len()
        invariant
            separator_from(text::texts(body_lines@), 0) == separator_from(
                text::texts(body_lines@),
                i as int,
            ),
    {
        let line = chars::trim(body_lines[i].as_str());
        if chars::same_text(line.as_str(), "---") {
            return Some(i);
        }
    }
    None
}

/// The lines from `start` up to `end`, joined by newlines and trimmed.
fn joined_lines(body_lines: &Vec<String>, start: usize, end: usize) -> (joined: String)
    requires
        start <= end <= body_lines@.len(),
    ensures
        joined@ == text::trim(
            text::join(text::texts(body_lines@).subrange(start as int, end as int), "\n"@),
        ),
{
    let part = slice_subrange(body_lines.as_slice(), start, end);
    assert(text::texts(part@) == text::texts(body_lines@).subrange(start as int, end as int));
    let joined = chars::join(part, "\n");
    chars::trim(joined.as_str())
}

/// Makes a card of a callout, or nothing where the callout is not a well-formed card.
pub fn classify_card(
    title: Option<String>,
    body_lines: Vec<String>,
    deck: String,
    callout_type: String,
    sort_key: String,
    context: Vec<String>,
) -> (card: Option<Card>)
    ensures
        match content_of(text::opt_text(title), text::texts(body_lines@)) {
            None => card is None,
            Some(content) => card is Some && card->0@ == (CardModel {
                kind: content.kind,
                deck: deck@,
                fingerprint: fingerprint_of(content.identity),
                callout_type: callout_type@,
                sort_key: sort_key@,
                context: text::texts(context@),
            }),
        },
        card matches Some(c) ==> digest::is_short_hash(c@.fingerprint),
{
    let ghost body = text::texts(body_lines@);
    if any_cloze(&body_lines) {
        let raw = chars::join(body_lines.as_slice(), "\n");
        let fp = fingerprint(raw.as_str());
        let text = convert_cloze(raw.as_str());
        return Some(
            Card {
                kind: CardKind::Cloze { text },
                deck,
                fingerprint: fp,
                callout_type,
                sort_key,
                context,
            },
        );
    }
    if let Some(front) = title {
        let back = joined_lines(&body_lines, 0, body_lines.len());
        assert(body.subrange(0, body.len() as int) == body);
        let fp = fingerprint(front.as_str());
        return Some(
            Card {
                kind: CardKind::Basic { front, back },
                deck,
                fingerprint: fp,
                callout_type,
                sort_key,
                context,
            },
        );
    }
    if let Some(separator) = separator_position(&body_lines) {
        let front = joined_lines(&body_lines, 0, separator);
        let back = joined_lines(&body_lines, separator + 1, body_lines.len());
        assert(body.subrange(0, separator as int) == body.take(separator as int));
        assert(body.subrange(separator + 1, body.len() as int) == body.skip(separator + 1));
        if front.as_str().is_empty() {
            return None;
        }
        let fp = fingerprint(front.as_str());
        return Some(
            Card {
                kind: CardKind::Basic { front, back },
                deck,
                fingerprint: fp,
                callout_type,
                sort_key,
                context,
            },
        );
    }
    None
}

/// Whether a callout with this title and these body lines makes a card.
pub fn is_valid_card(title: Option<&str>, body_lines: &Vec<String>) -> (valid: bool)
    ensures
        valid == (content_of(
            match title {
                Some(t) => Some(t@),
                None => None,
            },
            text::texts(body_lines@),
        ) is Some),
{
    let ghost body = text::texts(body_lines@);
    if any_cloze(body_lines) {
        return true;
    }
    if title.is_some() {
        return true;
    }
    if let Some(separator) = separator_position(body_lines) {
        let front = joined_lines(body_lines, 0, separator);
        assert(body.subrange(0, separator as int) == body.take(separator as int));
        return !front.as_str().is_empty();
    }
    false
}

// ── Decks ────────────────────────────────────────────────────────────────────

/// A heading above a card, with its place among its siblings.
#[derive(Debug, Clone, PartialEq, Eq)]
pub struct HeadingLevel {
    pub title: String,
    pub ordinal: usize,
    pub width: usize,
}

/// A heading with its place among its siblings in front.
pub open spec fn ordered_title(title: Seq<char>, order: Order) -> Seq<char> {
    text::zero_padded(order.ordinal, order.width) + "."@ + title
}

/// What an optional `HeadingLevel` adds to the name of a deck.
pub open spec fn level_text(level: Option<&HeadingLevel>) -> Option<Seq<char>> {
    match level {
        Some(h) => Some(
            ordered_title(
                h.title@,
                Order { ordinal: h.ordinal as nat, width: h.width as nat },
            ),
        ),
        None => None,
    }
}

/// The title of an optional `HeadingLevel`.
pub open spec fn level_title(level: Option<&HeadingLevel>) -> Option<Seq<char>> {
    match level {
        Some(h) => Some(h.title@),
        None => None,
    }
}

/// The list with one more text, where there is one.
pub open spec fn and_maybe(list: Seq<Seq<char>>, more: Option<Seq<char>>) -> Seq<Seq<char>> {
    match more {
        Some(t) => list.push(t),
        None => list,
    }
}

/// The name of the deck below the given headings.
pub open spec fn deck_name(
    h1: Seq<char>,
    h2: Option<Seq<char>>,
    h3: Option<Seq<char>>,
) -> Seq<char> {
    text::join(and_maybe(and_maybe(seq![h1], h2), h3), "::"@)
}

/// The place of a heading or a card in decimal, with leading zeros up to `width` digits.
pub fn format_order_key(ordinal: usize, width: usize) -> (key: String)
    ensures
        key@ == text::zero_padded(ordinal as nat, width as nat),
{
    chars::zero_padded(ordinal as u64, width)
}

/// A heading as it stands in the name of a deck.
pub fn ordered_heading(heading: &HeadingLevel) -> (name: String)
    ensures
        Some(name@) == level_text(Some(heading)),
{
    let mut name = format_order_key(heading.ordinal, heading.width);
    name.append(".");
    name.append(heading.title.as_str());
    name
}

/// The name of the deck below the given headings.
pub fn build_deck(h1: &str, h2: Option<&HeadingLevel>, h3: Option<&HeadingLevel>) -> (deck: String)
    ensures
        deck@ == deck_name(h1@, level_text(h2), level_text(h3)),
{
    let mut parts: Vec<String> = Vec::new();
    parts.push(h1.to_owned());
    assert(text::texts(parts@) == seq![h1@]);
    if let Some(h) = h2 {
        let ghost before = parts@;
        let name = ordered_heading(h);
        parts.push(name);
        assert(text::texts(parts@) == text::texts(before).push(name@));
    }
    if let Some(h) = h3 {
        let ghost before = parts@;
        let name = ordered_heading(h);
        parts.push(name);
        assert(text::texts(parts@) == text::texts(before).push(name@));
    }
    chars::join(parts.as_slice(), "::")
}

/// The titles of the headings of the second and third level above a card.
pub fn build_context(h2: Option<&HeadingLevel>, h3: Option<&HeadingLevel>) -> (context: Vec<String>)
    ensures
        text::texts(context@) == and_maybe(
            and_maybe(Seq::empty(), level_title(h2)),
            level_title(h3),
        ),
{
    let mut context: Vec<String> = Vec::new();
    assert(text::texts(context@) == Seq::<Seq<char>>::empty());
    if let Some(h) = h2 {
        let ghost before = context@;
        context.push(h.title.clone());
        assert(text::texts(context@) == text::texts(before).push(h.title@));
    }
    if let Some(h) = h3 {
        let ghost before = context@;
        context.push(h.title.clone());
        assert(text::texts(context@) == text::texts(before).push(h.title@));
    }
    context
}

// ── Notes ────────────────────────────────────────────────────────────────────

/// The text of a note with its front matter taken off.
#[derive(Debug, Clone, PartialEq, Eq)]
pub struct NoteBody {
    /// The value of `anki-deck` in the front matter.
    pub deck_override: Option<String>,
    pub text: String,
}

/// The titles of the headings of the second and third level above a place.
pub open spec fn context_at(place: Place) -> Seq<Seq<char>> {
    and_maybe(
        and_maybe(
            Seq::empty(),
            match place.h2 {
                Some(h) => Some(h.title),
                None => None,
            },
        ),
        match place.h3 {
            Some(h) => Some(h.title),
            None => None,
        },
    )
}

/// The deck at a place, where `cards` are the callouts of the note that make cards: the heading
/// of the first level, then those of the second and third with their places among the siblings
/// that have cards below them.
pub open spec fn deck_at(cards: Seq<Block>, place: Place) -> Seq<char> {
    deck_name(
        place.h1,
        match place.h2 {
            Some(h) => Some(
                ordered_title(h.title, outline::h2_order_of(cards, place.section, h.number)),
            ),
            None => None,
        },
        match place.h3 {
            Some(h) => Some(
                ordered_title(
                    h.title,
                    outline::h3_order_of(
                        cards,
                        place.section,
                        outline::number_of(place.h2),
                        h.number,
                    ),
                ),
            ),
            None => None,
        },
    )
}

/// The card that the callout at position `i` makes, where `cards` are the callouts of the note
/// that make cards.
pub open spec fn card_at(
    cards: Seq<Block>,
    i: int,
    deck_override: Option<Seq<char>>,
) -> CardModel {
    let content = content_of(cards[i].title, cards[i].body)->0;
    CardModel {
        kind: content.kind,
        deck: match deck_override {
            Some(deck) => deck,
            None => deck_at(cards, cards[i].place),
        },
        fingerprint: fingerprint_of(content.identity),
        callout_type: cards[i].callout_type,
        sort_key: text::zero_padded((i + 1) as nat, outline::width_for(cards.len())),
        context: context_at(cards[i].place),
    }
}

/// The callouts of a note that make cards, in the order in which they stand.
pub open spec fn callouts_of(title: Seq<char>, body: Seq<char>) -> Seq<Block> {
    outline::card_blocks(
        outline::blocks(text::lines(without_comments(body)), outline::top(title)),
    )
}

/// The cards of a note.
pub open spec fn cards_of(
    title: Seq<char>,
    body: Seq<char>,
    deck_override: Option<Seq<char>>,
) -> Seq<CardModel> {
    let cards = callouts_of(title, body);
    Seq::new(cards.len(), |i: int| card_at(cards, i, deck_override))
}

/// How many of the callouts make cards.
fn count_cards(list: &Vec<CalloutBlock>) -> (count: usize)
    ensures
        count == outline::card_blocks(outline::block_models(list@)).len(),
{
    let ghost all = outline::block_models(list@);
    let mut count: usize = 0;
    assert(outline::card_blocks(all.take(0)).len() == 0) by {
        reveal(Seq::filter);
    }
    for i in 0..list.len()
        invariant
            all == outline::block_models(list@),
            count <= i,
            count == outline::card_blocks(all.take(i as int)).len(),
    {
        let block = &list[i];
        proof {
            outline::lemma_card_blocks_step(all, i as int);
        }
        let title = match &block.title {
            Some(t) => Some(t.as_str()),
            None => None,
        };
        if is_valid_card(title, &block.body_lines) {
            count = count + 1;
        }
    }
    assert(all.take(list@.len() as int) == all);
    count
}

/// The heading above a card with its place among its siblings.
fn ordered_level(heading: &Option<NumberedHeading>, order: HeadingOrder) -> (level: Option<
    HeadingLevel,
>)
    ensures
        level is Some == heading is Some,
        level matches Some(l) ==> l.title@ == heading->0.title@ && l.ordinal == order.ordinal
            && l.width == order.width,
{
    match heading {
        Some(h) => Some(
            HeadingLevel {
                title: h.title.clone(),
                ordinal: order.ordinal,
                width: order.width,
            },
        ),
        None => None,
    }
}

/// The deck of a callout, from the headings above it.
fn deck_of(position: &Position, orders: &HeadingOrders, Ghost(cards): Ghost<Seq<Block>>) -> (deck:
    String)
    requires
        outline::orders_of(*orders, cards),
        exists|i: int| 0 <= i < cards.len() && (#[trigger] cards[i]).place == position@,
    ensures
        deck@ == deck_at(cards, position@),
{
    let section = position.section;
    let h2_number = outline::heading_number(&position.h2);
    let h3_number = outline::heading_number(&position.h3);
    let h2_order = orders.h2_order(section, h2_number);
    let h3_order = orders.h3_order(section, h2_number, h3_number);
    proof {
        let i = choose|i: int| 0 <= i < cards.len() && (#[trigger] cards[i]).place == position@;
        if position.h2 is Some {
            assert(outline::under_h2(cards[i], section as nat, h2_number as nat));
            assert(outline::h2_numbers(cards, section as nat).contains(h2_number as nat));
        }
        if position.h3 is Some {
            assert(outline::under_h3(
                cards[i],
                section as nat,
                h2_number as nat,
                h3_number as nat,
            ));
            assert(outline::h3_numbers(cards, section as nat, h2_number as nat).contains(
                h3_number as nat,
            ));
        }
    }
    let h2 = ordered_level(&position.h2, h2_order);
    let h3 = ordered_level(&position.h3, h3_order);
    build_deck(position.h1.as_str(), h2.as_ref(), h3.as_ref())
}

/// The titles of the headings of the second and third level above a callout.
fn context_of(position: &Position) -> (context: Vec<String>)
    ensures
        text::texts(context@) == context_at(position@),
{
    let order = HeadingOrder { ordinal: 0, width: 0 };
    let h2 = ordered_level(&position.h2, order);
    let h3 = ordered_level(&position.h3, order);
    build_context(h2.as_ref(), h3.as_ref())
}

/// The cards of a note, in the order in which their callouts stand.
pub fn parse_cards(note: &BearNote, body: &NoteBody) -> (cards: Vec<Card>)
    ensures
        card_models(cards@) == cards_of(
            note.title@,
            body.text@,
            text::opt_text(body.deck_override),
        ),
        forall|j: int|
            0 <= j < cards@.len() ==> digest::is_short_hash((#[trigger] cards@[j])@.fingerprint),
{
    let stripped = strip_html_comments(body.text.as_str());
    let lines = chars::lines(stripped.as_str());
    let list = outline::scan_blocks(note.title.as_str(), &lines);
    let orders = outline::compute_heading_orders(&list);
    let width = outline::order_width_for_count(count_cards(&list));
    let ghost all = outline::block_models(list@);
    let ghost expected = callouts_of(note.title@, body.text@);
    let ghost deck_override = text::opt_text(body.deck_override);
    let mut cards: Vec<Card> = Vec::new();
    assert(outline::card_blocks(all.take(0)).len() == 0) by {
        reveal(Seq::filter);
    }
    for i in 0..list.len()
        invariant
            all == outline::block_models(list@),
            expected == outline::card_blocks(all),
            outline::orders_of(orders, expected),
            width == outline::width_for(expected.len()),
            deck_override == text::opt_text(body.deck_override),
            cards@.len() <= i,
            cards@.len() == outline::card_blocks(all.take(i as int)).len(),
            forall|j: int|
                0 <= j < cards@.len() ==> (#[trigger] cards@[j])@ == card_at(
                    expected,
                    j,
                    deck_override,
                ) && digest::is_short_hash(cards@[j]@.fingerprint),
    {
        let block = &list[i];
        let title = match &block.title {
            Some(t) => Some(t.as_str()),
            None => None,
        };
        proof {
            outline::lemma_card_blocks_step(all, i as int);
        }
        if is_valid_card(title, &block.body_lines) {
            let position = cards.len();
            assert(expected[position as int] == block@);
            let deck = match &body.deck_override {
                Some(deck) => deck.clone(),
                None => deck_of(&block.position, &orders, Ghost(expected)),
            };
            let context = context_of(&block.position);
            let card = classify_card(
                block.title.clone(),
                chars::clone_all(&block.body_lines),
                deck,
                block.callout_type.clone(),
                format_order_key(position + 1, width),
                context,
            );
            if let Some(card) = card {
                cards.push(card);
            }
        }
    }
    assert(all.take(list@.len() as int) == all);
    assert(card_models(cards@) == cards_of(note.title@, body.text@, deck_override));
    cards
}

/// How many callouts of a note do not make a card.
pub fn malformed_callouts(note: &BearNote, body: &NoteBody) -> (count: usize)
    ensures
        count == outline::blocks(
            text::lines(without_comments(body.text@)),
            outline::top(note.title@),
        ).len() - callouts_of(note.title@, body.text@).len(),
{
    let stripped = strip_html_comments(body.text.as_str());
    let lines = chars::lines(stripped.as_str());
    let list = outline::scan_blocks(note.title.as_str(), &lines);
    proof {
        outline::block_models(list@).lemma_filter_len(|block: Block| outline::is_card(block));
    }
    list.len() - count_cards(&list)
}

} // verus!
