//! What holds of every call: how what comes back follows from what is handed over, and how one
//! call follows from another.

use vstd::prelude::*;

use crate::anki;
use crate::anki::{AnkiClient, AnkiNote, NoteModel};
use crate::anki_laws;
use crate::apply;
use crate::apply::{Apply, PhaseModel};
use crate::callout_laws;
use crate::commands;
use crate::config::Config;
use crate::digest;
use crate::json;
use crate::json::{Json, JsonModel};
use crate::menu;
use crate::menu::MenuBar;
use crate::messages::Line;
use crate::outline;
use crate::outline::{Block, HeadingKey, HeadingOrder, HeadingOrders};
use crate::parser;
use crate::parser::{BearNote, Card, HeadingLevel, NoteBody, Sides};
use crate::paths::HomeNotSet;
use crate::render;
use crate::render::NoteImage;
use crate::render_laws;
use crate::run_laws;
use crate::state;
use crate::state::{KnownCard, StateModel, SyncState};
use crate::sync;
use crate::sync::{AddModel, Plan};
use crate::text;
use crate::text_laws;

verus! {

// ── Cards ────────────────────────────────────────────────────────────────────

/// The card of a callout with a title whose body has no blank has the title as its front, and as
/// its back all lines of the body joined by newlines, without the white space at the ends: so
/// every line of the body stands in it. The card has the deck, the type, the sort key and the
/// headings that are handed over.
pub proof fn law_titled_callouts_make_cards_of_the_whole_body(
    title: String,
    body_lines: Vec<String>,
    deck: String,
    callout_type: String,
    sort_key: String,
    context: Vec<String>,
    card: Option<Card>,
    i: int,
)
    requires
        call_ensures(
            parser::classify_card,
            (Some(title), body_lines, deck, callout_type, sort_key, context),
            card,
        ),
        forall|k: int|
            0 <= k < body_lines@.len() ==> !text::contains((#[trigger] body_lines@[k])@, "{{"@),
        0 <= i < body_lines@.len(),
    ensures
        card matches Some(c) && {
            &&& c@.kind == (Sides::Basic {
                front: title@,
                back: text::trim(text::join(text::texts(body_lines@), "\n"@)),
            })
            &&& text::contains(c@.kind->back, text::trim(body_lines@[i]@))
            &&& c@.deck == deck@ && c@.callout_type == callout_type@ && c@.sort_key == sort_key@
                && c@.context == text::texts(context@)
            &&& c@.fingerprint == digest::short_hash_of(vstd::utf8::encode_utf8(title@))
        },
{
    let body = text::texts(body_lines@);
    assert forall|k: int| 0 <= k < body.len() implies !text::contains(
        #[trigger] body[k],
        "{{"@,
    ) by {
        assert(body[k] == body_lines@[k]@);
    }
    callout_laws::law_the_back_is_the_whole_body(title@, body, body, i);
    assert(body[i] == body_lines@[i]@);
    assert(text::opt_text(Some(title)) == Some(title@));
}

/// Two callouts with a title and without blanks make cards with the same back only where their
/// bodies are the same text, but for the white space at the ends.
pub proof fn law_different_bodies_make_different_backs(
    title: String,
    body: Vec<String>,
    other: Vec<String>,
    deck: String,
    callout_type: String,
    sort_key: String,
    context: Vec<String>,
    card: Option<Card>,
    second: Option<Card>,
)
    requires
        call_ensures(
            parser::classify_card,
            (Some(title), body, deck, callout_type, sort_key, context),
            card,
        ),
        call_ensures(
            parser::classify_card,
            (Some(title), other, deck, callout_type, sort_key, context),
            second,
        ),
        forall|k: int| 0 <= k < body@.len() ==> !text::contains((#[trigger] body@[k])@, "{{"@),
        forall|k: int| 0 <= k < other@.len() ==> !text::contains((#[trigger] other@[k])@, "{{"@),
        text::trim(text::join(text::texts(body@), "\n"@)) != text::trim(
            text::join(text::texts(other@), "\n"@),
        ),
    ensures
        card is Some && second is Some && card->0@.kind->back != second->0@.kind->back,
{
    let a = text::texts(body@);
    let b = text::texts(other@);
    assert forall|k: int| 0 <= k < a.len() implies !text::contains(#[trigger] a[k], "{{"@) by {
        assert(a[k] == body@[k]@);
    }
    assert forall|k: int| 0 <= k < b.len() implies !text::contains(#[trigger] b[k], "{{"@) by {
        assert(b[k] == other@[k]@);
    }
    assert(text::opt_text(Some(title)) == Some(title@));
}

/// A callout is either a card or counted as malformed: those that are counted are the callouts of
/// the note that hold nothing to ask.
pub proof fn law_malformed_callouts_are_those_without_a_card(
    note: &BearNote,
    body: &NoteBody,
    count: usize,
)
    requires
        call_ensures(parser::malformed_callouts, (note, body), count),
    ensures
        ({
            let all = outline::blocks(
                text::lines(parser::without_comments(body.text@)),
                outline::top(note.title@),
            );
            count == all.filter(
                |block: Block| parser::content_of(block.title, block.body) is None,
            ).len()
        }),
{
    let all = outline::blocks(
        text::lines(parser::without_comments(body.text@)),
        outline::top(note.title@),
    );
    lemma_parted(all);
}

proof fn lemma_parted(all: Seq<Block>)
    ensures
        outline::card_blocks(all).len() + all.filter(
            |block: Block| parser::content_of(block.title, block.body) is None,
        ).len() == all.len(),
    decreases all.len(),
{
    reveal(Seq::filter);
    if all.len() > 0 {
        lemma_parted(all.drop_last());
    }
}

// ── Decks ────────────────────────────────────────────────────────────────────

/// A heading stands in the name of a deck behind its place and a dot, and the headings behind the
/// first behind a double colon each. The headings that a card shows are their titles alone.
pub proof fn law_deck_names_grow_with_the_headings(
    h1: &str,
    h2: &HeadingLevel,
    h3: &HeadingLevel,
    one: String,
    two: String,
    three: String,
    context: Vec<String>,
)
    requires
        call_ensures(
            parser::build_deck,
            (h1, None::<&HeadingLevel>, None::<&HeadingLevel>),
            one,
        ),
        call_ensures(parser::build_deck, (h1, Some(h2), None::<&HeadingLevel>), two),
        call_ensures(parser::build_deck, (h1, Some(h2), Some(h3)), three),
        call_ensures(parser::build_context, (Some(h2), Some(h3)), context),
    ensures
        one@ == h1@,
        two@ == one@ + "::"@ + text::zero_padded(h2.ordinal as nat, h2.width as nat) + "."@
            + h2.title@,
        three@ == two@ + "::"@ + text::zero_padded(h3.ordinal as nat, h3.width as nat) + "."@
            + h3.title@,
        text::texts(context@) == seq![h2.title@, h3.title@],
{
    let sep = "::"@;
    let a = h1@;
    let b = text::zero_padded(h2.ordinal as nat, h2.width as nat) + "."@ + h2.title@;
    let c = text::zero_padded(h3.ordinal as nat, h3.width as nat) + "."@ + h3.title@;
    text_laws::law_parts_are_joined_in_order(a, seq![a], seq![b], sep);
    text_laws::law_parts_are_joined_in_order(b, seq![a], seq![b], sep);
    text_laws::law_parts_are_joined_in_order(c, seq![a] + seq![b], seq![c], sep);
    assert(seq![a].push(b) =~= seq![a] + seq![b]);
    assert(seq![a].push(b).push(c) =~= seq![a] + seq![b] + seq![c]);
    assert(two@ =~= a + sep + text::zero_padded(h2.ordinal as nat, h2.width as nat) + "."@
        + h2.title@);
    assert(three@ =~= two@ + sep + text::zero_padded(h3.ordinal as nat, h3.width as nat) + "."@
        + h3.title@);
    assert(text::texts(context@) =~= seq![h2.title@, h3.title@]);
}

/// A heading has the place that is listed for it, the first where there are more; one that is not
/// listed has its own number, as wide as that takes.
pub proof fn law_headings_have_the_places_listed(
    orders: HeadingOrders,
    section: usize,
    parent: usize,
    number: usize,
    second: HeadingOrder,
    third: HeadingOrder,
    i: int,
)
    requires
        call_ensures(HeadingOrders::h2_order, (&orders, section, number), second),
        call_ensures(HeadingOrders::h3_order, (&orders, section, parent, number), third),
    ensures
        is_first(orders.h2@, (HeadingKey { section, parent: 0, number }), i) ==> second@
            == orders.h2@[i].1@,
        is_first(orders.h3@, (HeadingKey { section, parent, number }), i) ==> third@
            == orders.h3@[i].1@,
        (forall|k: int|
            0 <= k < orders.h2@.len() ==> (#[trigger] orders.h2@[k]).0 != (HeadingKey {
                section,
                parent: 0,
                number,
            })) ==> second.ordinal == number && second.width == text::decimal(
            if number == 0 {
                1
            } else {
                number as nat
            },
        ).len(),
{
    lemma_listed(orders.h2@, HeadingKey { section, parent: 0, number }, i);
    lemma_listed(orders.h3@, HeadingKey { section, parent, number }, i);
}

/// The first entry of a heading.
pub open spec fn is_first(
    entries: Seq<(HeadingKey, HeadingOrder)>,
    key: HeadingKey,
    i: int,
) -> bool {
    &&& 0 <= i < entries.len()
    &&& entries[i].0 == key
    &&& forall|k: int| 0 <= k < i ==> (#[trigger] entries[k]).0 != key
}

proof fn lemma_listed(entries: Seq<(HeadingKey, HeadingOrder)>, key: HeadingKey, i: int)
    ensures
        is_first(entries, key, i) ==> outline::listed(entries, key) == Some(entries[i].1@),
        (forall|k: int| 0 <= k < entries.len() ==> (#[trigger] entries[k]).0 != key)
            ==> outline::listed(entries, key) is None,
    decreases entries.len(),
{
    if entries.len() > 0 {
        let tail = entries.skip(1);
        lemma_listed(tail, key, i - 1);
        if is_first(entries, key, i) && i > 0 {
            assert(entries[0].0 != key);
            assert(tail[i - 1] == entries[i]);
            assert forall|k: int| 0 <= k < i - 1 implies (#[trigger] tail[k]).0 != key by {
                assert(entries[k + 1].0 != key);
            }
        }
        if forall|k: int| 0 <= k < entries.len() ==> (#[trigger] entries[k]).0 != key {
            assert(entries[0].0 != key);
            assert forall|k: int| 0 <= k < tail.len() implies (#[trigger] tail[k]).0 != key by {
                assert(entries[k + 1].0 != key);
            }
        }
    }
}

// ── Images ───────────────────────────────────────────────────────────────────

/// A file is an image by what follows the last dot of its name, in letters of either case.
pub proof fn law_files_are_images_by_their_extension(
    filename: &str,
    name: Seq<char>,
    extension: Seq<char>,
    image: bool,
)
    requires
        call_ensures(render::is_image, (filename,), image),
        filename@ == name + "."@ + extension,
        !extension.contains('.'),
    ensures
        image <==> render_laws::picture_kinds().contains(text::ascii_lowercase(extension)),
{
    render_laws::law_images_are_known_by_their_extension(name, extension);
}

/// An attachment is known by its note and its own identifier; its digest follows from its content
/// alone, and it is stored with its content under a name that ends with that of the file.
pub proof fn law_attachments_are_known_by_note_and_identifier(
    note_id: &str,
    uuid: &str,
    filename: String,
    data: Vec<u8>,
    image: NoteImage,
    upload: (String, String),
)
    requires
        call_ensures(render::attached_image, (note_id, uuid, filename, data), image),
        call_ensures(render::upload_image, (&image,), upload),
    ensures
        image@.filename == filename@,
        image@.data == data@,
        image@.upload_key == note_id@ + seq![':'] + uuid@,
        image@.content_hash == digest::short_hash_of(data@),
        upload.0@ == render::anki_name(image@),
        upload.1@ == render::base64_text(data@),
        text::starts_with(upload.0@, "bear_"@),
        upload.0@.len() >= filename@.len() && upload.0@.skip(
            upload.0@.len() - filename@.len(),
        ) == filename@,
{
    reveal_strlit(":");
    reveal_strlit("bear_");
    assert(":"@ =~= seq![':']);
    let name = upload.0@;
    assert(name.subrange(0, 5) =~= "bear_"@);
    assert(name.skip(name.len() - filename@.len()) =~= filename@);
}

/// Each pair of marks of a formula is replaced, not only the first: what follows a formula is
/// taken as if it stood alone.
pub proof fn law_all_formulas_of_a_text_are_converted(
    text: &str,
    result: String,
    before: Seq<char>,
    math: Seq<char>,
    after: Seq<char>,
)
    requires
        call_ensures(render::convert_math, (text,), result),
        text@ == before + "$"@ + math + "$"@ + after,
        !before.contains('$'),
        !math.contains('$'),
        math.len() > 0,
        after.len() > 0 ==> after[0] != '$',
    ensures
        result@ == before + "\\("@ + math + "\\)"@ + render::math_of(after),
{
    render_laws::law_every_inline_formula_is_converted(before, math, after);
}

/// What stands between a pair of marks is put in the marks of MathJax, and what follows the pair
/// is converted as in a text of its own: so it is done for every pair. A first mark without a
/// second one behind it stays, and what follows it is converted all the same.
pub proof fn law_every_pair_of_marks_is_replaced(
    text: &str,
    after: &str,
    open: &str,
    close: &str,
    blocks: bool,
    result: String,
    rest: String,
    before: Seq<char>,
    math: Seq<char>,
)
    requires
        call_ensures(render::replace_math_delimiters, (text, open, close, blocks), result),
        call_ensures(render::replace_math_delimiters, (after, open, close, blocks), rest),
        open@.len() > 0,
        text::find(text@, open@) == Some(before.len() as int),
    ensures
        text@ == before + open@ + math + close@ + after@ && text::find(
            math + close@ + after@,
            close@,
        ) == Some(math.len() as int) ==> result@ == before + (if blocks && math.contains('\n') {
            "\\["@ + math + "\\]"@
        } else {
            "\\("@ + math + "\\)"@
        }) + rest@,
        text@ == before + open@ + after@ && text::find(after@, close@) is None ==> result@ == before
            + open@ + rest@,
{
    let inner = text@.skip((before.len() + open@.len()) as int);
    if text@ == before + open@ + math + close@ + after@ {
        assert(inner =~= math + close@ + after@);
        assert(text@.take(before.len() as int) =~= before);
        if text::find(inner, close@) == Some(math.len() as int) {
            assert(inner.take(math.len() as int) =~= math);
            assert(inner.skip((math.len() + close@.len()) as int) =~= after@);
            assert(result@ =~= before + render::math_markup(math, blocks) + rest@);
        }
    }
    if text@ == before + open@ + after@ {
        assert(inner =~= after@);
        assert(text@.take(before.len() as int) =~= before);
        if text::find(after@, close@) is None {
            assert(result@ =~= before + open@ + rest@);
        }
    }
}

// ── State ────────────────────────────────────────────────────────────────────

/// A card that is recorded is found by its note and its fingerprint, and keeps its digest.
pub proof fn law_recorded_cards_are_found(
    known: &mut SyncState,
    after: &SyncState,
    note_id: &str,
    fp: &str,
    anki_id: u64,
    found: Option<u64>,
    before: Option<&str>,
    hash: Option<&str>,
)
    requires
        call_ensures(SyncState::get_hash, (&*old(known), note_id, fp), before),
        call_ensures(SyncState::insert, (known, note_id, fp, anki_id), ()),
        after@ == final(known)@,
        call_ensures(SyncState::get, (after, note_id, fp), found),
        call_ensures(SyncState::get_hash, (after, note_id, fp), hash),
    ensures
        found == Some(anki_id),
        hash is Some == before is Some,
        hash matches Some(h) ==> h@ == before->0@,
{
}

/// A digest that is recorded is found again, and the number of the note is as it was.
pub proof fn law_recorded_digests_are_found(
    known: &mut SyncState,
    after: &SyncState,
    note_id: &str,
    fp: &str,
    digest: String,
    before: Option<u64>,
    found: Option<u64>,
    hash: Option<&str>,
)
    requires
        call_ensures(SyncState::get, (&*old(known), note_id, fp), before),
        call_ensures(SyncState::set_hash, (known, note_id, fp, digest), ()),
        after@ == final(known)@,
        call_ensures(SyncState::get, (after, note_id, fp), found),
        call_ensures(SyncState::get_hash, (after, note_id, fp), hash),
    ensures
        hash matches Some(h) && h@ == digest@,
        found == before,
{
}

/// A card that is forgotten is not found, nor its digest; its number comes back.
pub proof fn law_forgotten_cards_are_not_found(
    known: &mut SyncState,
    after: &SyncState,
    note_id: &str,
    fp: &str,
    before: Option<u64>,
    removed: Option<u64>,
    found: Option<u64>,
    hash: Option<&str>,
)
    requires
        call_ensures(SyncState::get, (&*old(known), note_id, fp), before),
        call_ensures(SyncState::remove, (known, note_id, fp), removed),
        after@ == final(known)@,
        call_ensures(SyncState::get, (after, note_id, fp), found),
        call_ensures(SyncState::get_hash, (after, note_id, fp), hash),
    ensures
        removed == before,
        found is None,
        hash is None,
{
}

/// The files of the settings and of the state stand side by side below the home directory; where
/// that is not known, neither path is.
pub proof fn law_settings_and_state_stand_side_by_side(
    home: &str,
    settings: Result<String, HomeNotSet>,
    state: Result<String, HomeNotSet>,
    no_settings: Result<String, HomeNotSet>,
    no_state: Result<String, HomeNotSet>,
)
    requires
        home@.len() > 0,
        home@.last() != '/',
        call_ensures(Config::path, (Some(home),), settings),
        call_ensures(state::state_path, (Some(home),), state),
        call_ensures(Config::path, (None::<&str>,), no_settings),
        call_ensures(state::state_path, (None::<&str>,), no_state),
    ensures
        settings matches Ok(path) && path@ == home@
            + "/Library/Application Support/bear-anki/"@ + "config.toml"@,
        state matches Ok(path) && path@ == home@ + "/Library/Application Support/bear-anki/"@
            + "state.json"@,
        no_settings is Err && no_state is Err,
{
    run_laws::law_files_stand_below_the_home_directory(home@, "config.toml"@);
    run_laws::law_files_stand_below_the_home_directory(home@, "state.json"@);
}

// ── Runs ─────────────────────────────────────────────────────────────────────

/// The images of a note are taken from the first reply about them, and those of other notes stay.
pub proof fn law_the_first_images_of_a_note_count(
    plan: &mut Plan,
    note_id: String,
    images: Vec<NoteImage>,
    other: Seq<char>,
)
    requires
        call_ensures(Plan::images_fetched, (plan, note_id, images), ()),
        other != note_id@,
    ensures
        final(plan)@.images.contains_key(note_id@),
        old(plan)@.images.contains_key(note_id@) ==> final(plan)@.images == old(plan)@.images,
        !old(plan)@.images.contains_key(note_id@) ==> final(plan)@.images[note_id@]
            == render::image_models(images@),
        final(plan)@.images.contains_key(other) == old(plan)@.images.contains_key(other),
        final(plan)@.images[other] == old(plan)@.images[other],
        final(plan)@.scope == old(plan)@.scope && final(plan)@.next == old(plan)@.next
            && final(plan)@.report == old(plan)@.report && final(plan)@.updates
            == old(plan)@.updates && final(plan)@.adds == old(plan)@.adds,
{
}

/// An image that cannot be uploaded is warned of by its file name and the reason; it is not
/// counted as uploaded, and the run goes on with the next image of the same card.
pub proof fn law_failed_uploads_are_passed_over(plan: &mut Plan, reason: &str, warning: String)
    requires
        sync::awaits_upload(old(plan)@),
        call_ensures(Plan::image_failed, (plan, reason), warning),
    ensures
        warning@ == "bear-anki: failed to upload image "@ + sync::awaited_image(
            old(plan)@,
        ).filename + ": "@ + reason@,
        final(plan)@.uploaded == old(plan)@.uploaded,
        final(plan)@.next == old(plan)@.next,
        final(plan)@.draft matches Some(draft) && draft.pass.next == old(plan)@.draft->0.pass.next
            + 1 && draft.pass.text == old(plan)@.draft->0.pass.text,
{
}

/// The reply to a batch of updates fails the run at the first error other than a missing note,
/// with its words; then nothing has changed. Without such an error the run goes on with the notes
/// that were found, and warns of each that was not.
pub proof fn law_replies_to_updates_decide_on_the_batch(
    apply: &mut Apply,
    outcomes: &Vec<Option<String>>,
    reply: (Vec<Line>, Option<String>),
    j: int,
)
    requires
        apply::awaits_outcomes(old(apply)@),
        call_ensures(Apply::notes_updated, (apply, outcomes), reply),
        apply::batch(old(apply)@.updates, old(apply)@.phase->Updating_0).len() == outcomes@.len(),
        0 <= j < outcomes@.len(),
    ensures
        reply.1 is Some ==> final(apply)@ == old(apply)@,
        reply.1 is None ==> !run_laws::fails(text::opt_text(outcomes@[j])),
        reply.1 is None ==> (final(apply)@.phase matches PhaseModel::Moving(from, found) && from
            == old(apply)@.phase->Updating_0 && found.len() == outcomes@.len() && found[j]
            == outcomes@[j] is None),
        reply.1 is None ==> final(apply)@.updates == old(apply)@.updates && final(apply)@.adds
            == old(apply)@.adds && final(apply)@.report == old(apply)@.report
            && final(apply)@.decks == old(apply)@.decks,
        reply.1 matches Some(message) ==> exists|i: int|
            0 <= i < outcomes@.len() && run_laws::fails(text::opt_text(#[trigger] outcomes@[i]))
                && message@ == "AnkiConnect update failed: "@ + outcomes@[i]->0@ && (j < i
                ==> !run_laws::fails(text::opt_text(outcomes@[j]))),
{
    let list = apply::batch(old(apply)@.updates, old(apply)@.phase->Updating_0);
    let all = anki::outcome_models(outcomes@);
    let heard = all.take(apply::shorter(list.len(), all.len()) as int);
    assert(heard =~= all);
    run_laws::law_the_first_failure_counts(all, j);
    assert(all[j] == text::opt_text(outcomes@[j]));
    if let Some(i) = apply::first_failure(all) {
        assert(all[i] == text::opt_text(outcomes@[i]));
    }
}

/// Added notes are recorded with the numbers of the reply.
pub proof fn law_replies_to_additions_are_recorded(
    apply: &mut Apply,
    known: &mut SyncState,
    ids: &Vec<u64>,
    i: int,
)
    requires
        call_ensures(Apply::notes_added, (apply, known, ids), ()),
        0 <= i < apply::being_added(old(apply)@).len(),
        apply::being_added(old(apply)@).len() == ids@.len(),
        forall|j: int|
            i < j < ids@.len() ==> apply::pending_key(
                #[trigger] apply::being_added(old(apply)@)[j],
            ) != apply::pending_key(apply::being_added(old(apply)@)[i]),
    ensures
        ({
            let card = apply::being_added(old(apply)@)[i];
            let key = state::key_of(card.note_id, card.fp);
            &&& final(known)@.cards.contains_key(key) && final(known)@.cards[key] == ids@[i]
            &&& final(known)@.hashes.contains_key(key) && final(known)@.hashes[key] == card.hash
        }),
{
    let list = apply::being_added(old(apply)@);
    lemma_recorded(old(known)@, list, ids@, ids@.len(), i);
}

proof fn lemma_recorded(
    known: StateModel,
    list: Seq<AddModel>,
    ids: Seq<u64>,
    count: nat,
    i: int,
)
    requires
        0 <= i < count <= list.len(),
        count <= ids.len(),
        forall|j: int|
            i < j < count ==> apply::pending_key(#[trigger] list[j]) != apply::pending_key(list[i]),
    ensures
        ({
            let after = apply::with_notes(known, list, ids, count);
            let own = apply::pending_key(list[i]);
            &&& after.cards.contains_key(own) && after.cards[own] == ids[i]
            &&& after.hashes.contains_key(own) && after.hashes[own] == list[i].hash
        }),
    decreases count,
{
    let n = count - 1;
    if i < n {
        lemma_recorded(known, list, ids, n as nat, i);
        assert(apply::pending_key(list[n]) != apply::pending_key(list[i]));
    }
}

/// A state that is cleared holds no card, and stands where it stood.
pub proof fn law_a_cleared_state_holds_no_card(known: &mut SyncState, card: KnownCard)
    requires
        call_ensures(commands::clear_state, (known,), ()),
    ensures
        !state::is_known(final(known)@, card),
        final(known).file_path() == old(known).file_path(),
{
}

// ── Requests ─────────────────────────────────────────────────────────────────

/// What a request asks for.
pub open spec fn asks_for(body: JsonModel, action: Seq<char>) -> bool {
    json::field_of(body, "action"@) == Some(JsonModel::Text(action))
}

/// A parameter of a request.
pub open spec fn param(body: JsonModel, name: Seq<char>) -> Option<JsonModel> {
    match json::field_of(body, "params"@) {
        Some(params) => json::field_of(params, name),
        None => None,
    }
}

/// Requests about decks, files and numbers of notes carry them under the names that AnkiConnect
/// reads.
pub proof fn law_requests_carry_their_parameters(
    client: &AnkiClient,
    name: &str,
    data: &str,
    id: u64,
    ids: &[u64],
    deck: Json,
    file: Json,
    gone: Json,
    info: Json,
    check: Json,
)
    requires
        call_ensures(AnkiClient::create_deck, (client, name), deck),
        call_ensures(AnkiClient::store_media_file, (client, name, data), file),
        call_ensures(AnkiClient::delete_notes, (client, ids), gone),
        call_ensures(AnkiClient::move_note_to_deck, (client, id), info),
        call_ensures(AnkiClient::check_connection, (client,), check),
    ensures
        asks_for(deck@, "createDeck"@) && param(deck@, "deck"@) == Some(JsonModel::Text(name@)),
        asks_for(file@, "storeMediaFile"@) && param(file@, "filename"@) == Some(
            JsonModel::Text(name@),
        ) && param(file@, "data"@) == Some(JsonModel::Text(data@)),
        asks_for(gone@, "deleteNotes"@) && param(gone@, "notes"@) == Some(
            JsonModel::List(json::number_values(ids@)),
        ),
        asks_for(info@, "notesInfo"@) && param(info@, "notes"@) == Some(
            JsonModel::List(json::number_values(seq![id])),
        ),
        asks_for(check@, "requestPermission"@),
{
    reveal_strlit("filename");
    reveal_strlit("data");
    assert("filename"@[0] == 'f' && "data"@[0] == 'd');
    let deck_params = JsonModel::Object(seq![("deck"@, JsonModel::Text(name@))]);
    let file_params = JsonModel::Object(
        seq![("filename"@, JsonModel::Text(name@)), ("data"@, JsonModel::Text(data@))],
    );
    anki_laws::law_requests_name_their_action("createDeck"@, deck_params);
    anki_laws::law_requests_name_their_action("storeMediaFile"@, file_params);
    anki_laws::law_requests_name_their_action("deleteNotes"@, anki::note_ids_model(ids@));
    anki_laws::law_requests_name_their_action("notesInfo"@, anki::note_ids_model(seq![id]));
    anki_laws::law_requests_name_their_action(
        "requestPermission"@,
        JsonModel::Object(Seq::empty()),
    );
    let all = file_params->Object_0;
    reveal_with_fuel(json::member_of, 3);
    assert(all.drop_last().last() == all[0]);
}

/// Notes that are added are all sent in one request, in their order; without notes there is none.
pub proof fn law_all_notes_are_sent_in_one_request(
    client: &AnkiClient,
    notes: &Vec<AnkiNote>,
    body: Option<Json>,
    i: int,
)
    requires
        call_ensures(AnkiClient::add_notes, (client, notes), body),
        0 <= i < notes@.len(),
    ensures
        body matches Some(json) && asks_for(json@, "addNotes"@) && (param(
            json@,
            "notes"@,
        ) matches Some(JsonModel::List(list)) && list.len() == notes@.len() && list[i]
            == anki::note_json_model(notes@[i]@)),
{
    let list = anki::note_models(notes@).map_values(
        |note: NoteModel| anki::note_json_model(note),
    );
    let params = JsonModel::Object(seq![("notes"@, JsonModel::List(list))]);
    anki_laws::law_requests_name_their_action("addNotes"@, params);
    assert(json::field_of(params, "notes"@) == Some(JsonModel::List(list)));
}

/// Notes that are updated are all sent in one request, in their order, each with its number, its
/// fields and its tags.
pub proof fn law_all_updates_are_sent_in_one_request(
    client: &AnkiClient,
    updates: &Vec<(u64, AnkiNote)>,
    body: Option<Json>,
    i: int,
)
    requires
        call_ensures(AnkiClient::update_notes, (client, updates), body),
        0 <= i < updates@.len(),
    ensures
        body matches Some(json) && asks_for(json@, "multi"@) && (param(
            json@,
            "actions"@,
        ) matches Some(JsonModel::List(list)) && list.len() == updates@.len() && asks_for(
            list[i],
            "updateNote"@,
        ) && (param(list[i], "note"@) matches Some(note) && json::field_of(note, "id"@) == Some(
            JsonModel::Number(updates@[i].0),
        ) && json::field_of(note, "fields"@) == Some(anki::fields_model(updates@[i].1@.fields))
            && json::field_of(note, "tags"@) == Some(
            JsonModel::List(json::text_values(updates@[i].1@.tags)),
        ))),
{
    let list = Seq::new(
        updates@.len(),
        |i: int|
            anki::action_model(
                "updateNote"@,
                anki::changes_model(
                    updates@[i].0,
                    updates@[i].1@.fields,
                    updates@[i].1@.tags,
                ),
            ),
    );
    let params = JsonModel::Object(seq![("actions"@, JsonModel::List(list))]);
    anki_laws::law_requests_name_their_action("multi"@, params);
    assert(json::field_of(params, "actions"@) == Some(JsonModel::List(list)));
    let changes = anki::changes_model(updates@[i].0, updates@[i].1@.fields, updates@[i].1@.tags);
    anki_laws::law_requests_name_their_action("updateNote"@, changes);
    anki_laws::law_updated_notes_are_sent_whole(
        updates@[i].0,
        updates@[i].1@.fields,
        updates@[i].1@.tags,
    );
    assert(list[i] == anki::action_model("updateNote"@, changes));
}

// ── The menu ─────────────────────────────────────────────────────────────────

/// A run starts where the user is signed in and nothing goes on; else nothing changes.
pub proof fn law_runs_start_one_at_a_time(
    menu: &mut MenuBar,
    force: bool,
    now: u64,
    started: bool,
)
    requires
        call_ensures(MenuBar::start_sync, (menu, force, now), started),
    ensures
        started <==> old(menu)@.is_authenticated && !old(menu)@.is_syncing && !old(
            menu,
        )@.is_authenticating,
        started ==> final(menu)@.is_syncing,
        !started ==> final(menu)@ == old(menu)@,
{
}

/// A sign-in starts where nothing goes on; else nothing changes.
pub proof fn law_sign_ins_start_one_at_a_time(menu: &mut MenuBar, started: bool)
    requires
        call_ensures(MenuBar::start_authenticate, (menu,), started),
    ensures
        started <==> !old(menu)@.is_syncing && !old(menu)@.is_authenticating,
        started ==> final(menu)@.is_authenticating && !final(menu)@.sync_item.enabled,
        !started ==> final(menu)@ == old(menu)@,
{
}

/// A run starts by itself at its time and not before; where it cannot start then, the next one is
/// set anew.
pub proof fn law_runs_start_by_themselves_in_time(menu: &mut MenuBar, now: u64, started: bool)
    requires
        call_ensures(MenuBar::maybe_start_auto_sync, (menu, now), started),
    ensures
        old(menu)@.next_auto_sync_at is None ==> !started && final(menu)@ == old(menu)@,
        old(menu)@.next_auto_sync_at matches Some(at) && now < at ==> !started && final(menu)@
            == old(menu)@,
        old(menu)@.next_auto_sync_at matches Some(at) && now >= at ==> {
            &&& started <==> old(menu)@.is_authenticated && !old(menu)@.is_syncing && !old(
                menu,
            )@.is_authenticating
            &&& final(menu)@.is_syncing == (old(menu)@.is_syncing || started)
            &&& final(menu)@.next_auto_sync_at == menu::deadline_after(
                old(menu)@.sync_interval_minutes,
                now,
            )
        },
{
}

/// A sign-in is over once its result is there, whatever it is; a check leaves one that goes on.
pub proof fn law_results_end_the_sign_in(
    menu: &mut MenuBar,
    other: &mut MenuBar,
    error: Option<&str>,
)
    requires
        call_ensures(MenuBar::on_auth_done, (menu, error), ()),
        call_ensures(MenuBar::on_auth_checked, (other, error), ()),
    ensures
        !final(menu)@.is_authenticating,
        final(menu)@.is_authenticated == error is None,
        final(other)@.is_authenticating == old(other)@.is_authenticating,
        final(other)@.is_authenticated == error is None,
        final(menu)@.is_syncing == old(menu)@.is_syncing && final(other)@.is_syncing == old(
            other,
        )@.is_syncing,
{
}

// ── Commands ─────────────────────────────────────────────────────────────────

/// The numbers of all tracked cards are those that are deleted, and what is told counts them.
pub proof fn law_all_tracked_notes_are_named(
    list: &Vec<(String, String, u64)>,
    ids: Vec<u64>,
    count: usize,
    line: String,
    i: int,
)
    requires
        call_ensures(commands::tracked_ids, (list,), ids),
        call_ensures(commands::deleted_line, (count,), line),
        0 <= i < list@.len(),
    ensures
        ids@.len() == list@.len(),
        ids@[i] == list@[i].2,
        line@ == "Deleted "@ + text::decimal(count as nat) + " note(s) from Anki."@,
{
}

/// The notes with tracked cards are listed with the number of their cards, those with more first,
/// and among those with as many in the order of their identifiers. So every note that has a card
/// is listed, and none twice.
pub proof fn law_notes_are_listed_by_their_cards(
    list: &Vec<(String, String, u64)>,
    counts: Vec<(String, usize)>,
    i: int,
    j: int,
    note_id: Seq<char>,
)
    requires
        call_ensures(commands::note_counts, (list,), counts),
        0 <= i < j < counts@.len(),
    ensures
        counts@[i].1 >= counts@[j].1,
        counts@[i].1 == counts@[j].1 ==> text::text_less(counts@[i].0@, counts@[j].0@),
        counts@[i].1 > 0,
        counts@[i].1 == commands::count_of(state::known_models(list@), counts@[i].0@),
        commands::count_of(state::known_models(list@), note_id) > 0 ==> exists|k: int|
            0 <= k < counts@.len() && (#[trigger] counts@[k]).0@ == note_id,
{
    let models = commands::count_models(counts@);
    let listed = state::known_models(list@);
    assert(commands::comes_before(models[i], models[j]));
    assert(models.contains(models[i]));
    let entry = (note_id, commands::count_of(listed, note_id));
    if entry.1 > 0 {
        assert(models.contains(entry));
        let k = choose|k: int| 0 <= k < models.len() && models[k] == entry;
        assert(counts@[k].0@ == note_id);
    }
}

/// The tracked cards are listed by the note, the fingerprint and the number that are recorded for
/// them, each one once and none left out.
pub proof fn law_tracked_cards_are_listed_once(
    known: &SyncState,
    list: Vec<(String, String, u64)>,
    note_id: Seq<char>,
    fp: Seq<char>,
    i: int,
    j: int,
)
    requires
        call_ensures(SyncState::all_keys, (known,), list),
        0 <= i < j < list@.len(),
        !note_id.contains(':'),
    ensures
        !list@[i].0@.contains(':'),
        known@.cards.contains_key(list@[i].0@ + seq![':'] + list@[i].1@),
        known@.cards[list@[i].0@ + seq![':'] + list@[i].1@] == list@[i].2,
        list@[i].0@ != list@[j].0@ || list@[i].1@ != list@[j].1@,
        known@.cards.contains_key(note_id + seq![':'] + fp) ==> exists|k: int|
            0 <= k < list@.len() && (#[trigger] list@[k]).0@ == note_id && list@[k].1@ == fp,
{
    reveal_strlit(":");
    assert(":"@ =~= seq![':']);
    let listed = state::known_models(list@);
    assert(listed.contains(listed[i]));
    assert(listed.contains(listed[j]));
    assert(state::is_known(known@, listed[i]));
    assert(state::is_known(known@, listed[j]));
    if list@[i].0@ == list@[j].0@ && list@[i].1@ == list@[j].1@ {
        assert(listed[i] == listed[j]);
    }
    let key = state::key_of(note_id, fp);
    if known@.cards.contains_key(key) {
        let card = KnownCard { note_id, fp, anki_id: known@.cards[key] };
        assert(state::is_known(known@, card));
        assert(listed.contains(card));
        let k = choose|k: int| 0 <= k < listed.len() && listed[k] == card;
        assert(list@[k].0@ == note_id);
    }
}

} // verus!
