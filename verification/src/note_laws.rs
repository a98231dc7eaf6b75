//! What holds of the Anki note of every card, and of the settings that shape it.

use vstd::prelude::*;

use crate::card_note;
use crate::config;
use crate::config::{Config, ConfigFile, ConfigModel};
use crate::digest;
use crate::parser;
use crate::parser::{CardModel, Sides};
use crate::render;
use crate::render::ImageModel;
use crate::render_laws;
use crate::text;
use crate::text_laws;
use crate::text_map;

verus! {

// ── Tags ─────────────────────────────────────────────────────────────────────

/// A list without repetitions grows with the list, by each member that the list did not hold: so
/// the first of each stays, in its place.
pub proof fn law_the_first_of_each_stays<A>(list: Seq<A>, more: A)
    ensures
        card_note::distinct(Seq::<A>::empty()) == Seq::<A>::empty(),
        card_note::distinct(list.push(more)) == if list.contains(more) {
            card_note::distinct(list)
        } else {
            card_note::distinct(list).push(more)
        },
{
    card_note::lemma_distinct(list);
    assert(list.push(more).drop_last() =~= list);
}

/// A tag of Bear as a tag of Anki: every slash becomes a double colon, and nothing else changes.
pub proof fn law_slashes_part_the_levels_of_tags(a: Seq<char>, b: Seq<char>)
    ensures
        text::expand(a + seq!['/'] + b, card_note::tag_image()) == text::expand(
            a,
            card_note::tag_image(),
        ) + seq![':', ':'] + text::expand(b, card_note::tag_image()),
        (forall|i: int| 0 <= i < a.len() ==> #[trigger] a[i] != '/') ==> text::expand(
            a,
            card_note::tag_image(),
        ) == a,
    decreases a.len(),
{
    reveal_strlit("::");
    let image = card_note::tag_image();
    assert("::"@ =~= seq![':', ':']);
    text_laws::law_characters_are_replaced_one_by_one(a, seq!['/'], '/', image);
    text_laws::law_characters_are_replaced_one_by_one(a + seq!['/'], b, '/', image);
    if a.len() > 0 {
        let front = a.drop_last();
        law_slashes_part_the_levels_of_tags(front, b);
        text_laws::law_characters_are_replaced_one_by_one(front, seq![a.last()], a.last(), image);
        assert(front + seq![a.last()] =~= a);
        if forall|i: int| 0 <= i < a.len() ==> #[trigger] a[i] != '/' {
            assert(a[a.len() - 1] != '/');
            assert forall|i: int| 0 <= i < front.len() implies #[trigger] front[i] != '/' by {
                assert(a[i] != '/');
            }
        }
    } else {
        text_laws::law_characters_are_replaced_one_by_one(a, b, '/', image);
        assert(a =~= Seq::empty());
    }
}

/// The tags of a card begin with that of its callout type. Each tag of the note comes behind
/// those before it, as a tag of Anki, where it is not among them; nothing else is.
pub proof fn law_tags_follow_those_of_the_note(
    card: CardModel,
    bear_tags: Seq<Seq<char>>,
    tag: Seq<char>,
    settings: ConfigModel,
)
    ensures
        card_note::tags_of(card, Seq::empty(), settings) == seq![
            config::tag_of(settings.tags, card.callout_type),
        ],
        ({
            let before = card_note::tags_of(card, bear_tags, settings);
            let name = text::expand(tag, card_note::tag_image());
            card_note::tags_of(card, bear_tags.push(tag), settings) == if before.contains(name) {
                before
            } else {
                before.push(name)
            }
        }),
{
    let first = seq![config::tag_of(settings.tags, card.callout_type)];
    let form = |t: Seq<char>| text::expand(t, card_note::tag_image());
    let name = text::expand(tag, card_note::tag_image());
    let list = first + bear_tags.map_values(form);
    assert(first + bear_tags.push(tag).map_values(form) =~= list.push(name));
    law_the_first_of_each_stays(list, name);
    card_note::lemma_distinct(list);
    let none = Seq::<Seq<char>>::empty();
    assert(first + none.map_values(form) =~= none.push(first[0]));
    law_the_first_of_each_stays(none, first[0]);
    assert(none.push(first[0]) =~= first);
}

/// The tag of a callout type is the one that is configured. Where none is, it is the name of the
/// type behind `bear-`; and so it is for every type where nothing is configured.
pub proof fn law_callout_types_have_tags(
    tags: Map<Seq<char>, Seq<char>>,
    callout_type: Seq<char>,
    tag: Seq<char>,
)
    ensures
        config::tag_of(tags.insert(callout_type, tag), callout_type) == tag,
        config::tag_of(tags.remove(callout_type), callout_type) == "bear-"@ + callout_type,
        config::tag_of(config::usual_tags(), callout_type) == "bear-"@ + callout_type,
{
    reveal_strlit("bear-");
    reveal_strlit("important");
    reveal_strlit("note");
    reveal_strlit("tip");
    reveal_strlit("warning");
    reveal_strlit("card");
    reveal_strlit("bear-important");
    reveal_strlit("bear-note");
    reveal_strlit("bear-tip");
    reveal_strlit("bear-warning");
    reveal_strlit("bear-card");
    assert("bear-"@ + "important"@ =~= "bear-important"@);
    assert("bear-"@ + "note"@ =~= "bear-note"@);
    assert("bear-"@ + "tip"@ =~= "bear-tip"@);
    assert("bear-"@ + "warning"@ =~= "bear-warning"@);
    assert("bear-"@ + "card"@ =~= "bear-card"@);
}

/// Where nothing is configured, all five callout types are listed.
pub proof fn law_the_usual_tags_are_those_of_the_types(name: Seq<char>)
    ensures
        config::usual_tags().contains_key(name) <==> name == "card"@ || name == "tip"@ || name
            == "note"@ || name == "important"@ || name == "warning"@,
{
}

// ── Settings ─────────────────────────────────────────────────────────────────

/// A setting that a file names is as the file says; each other one is as without a file. Without
/// one, there is no address and no interval, the headings are shown, and a slash parts them.
pub proof fn law_files_change_what_they_name(
    file: ConfigFile,
    loaded: Config,
    usual: Config,
    key: Seq<char>,
)
    requires
        call_ensures(Config::load, (Some(file),), loaded),
        call_ensures(Config::load, (None::<ConfigFile>,), usual),
    ensures
        usual@.anki_url is None,
        usual@.sync_interval_minutes is None,
        usual@.include_card_context,
        usual@.card_context_separator == seq![' ', '/', ' '],
        loaded@.anki_url == text::opt_text(file.anki_url),
        loaded@.sync_interval_minutes == file.sync_interval_minutes,
        file.include_card_context matches Some(b) ==> loaded@.include_card_context == b,
        file.include_card_context is None ==> loaded@.include_card_context
            == usual@.include_card_context,
        file.card_context_separator matches Some(s) ==> loaded@.card_context_separator == s@,
        file.card_context_separator is None ==> loaded@.card_context_separator
            == usual@.card_context_separator,
        file.tags is None ==> loaded@.tags == usual@.tags,
        file.tags matches Some(entries) ==> (loaded@.tags.contains_key(key) <==> exists|i: int|
            0 <= i < entries@.len() && (#[trigger] entries@[i]).0@ == key),
        file.tags matches Some(entries) ==> forall|i: int|
            0 <= i < entries@.len() && (#[trigger] entries@[i]).0@ == key && is_last_entry(
                entries@,
                i,
            ) ==> loaded@.tags[key] == entries@[i].1@,
{
    reveal_strlit(" / ");
    assert(" / "@ =~= seq![' ', '/', ' ']);
    if let Some(entries) = file.tags {
        lemma_entry_texts(entries@, key);
    }
}

/// No entry behind this one has the same key.
pub open spec fn is_last_entry(entries: Seq<(String, String)>, i: int) -> bool {
    forall|j: int| i < j < entries.len() ==> (#[trigger] entries[j]).0@ != entries[i].0@
}

proof fn lemma_entry_texts(entries: Seq<(String, String)>, key: Seq<char>)
    ensures
        text_map::entry_texts(entries).contains_key(key) <==> exists|i: int|
            0 <= i < entries.len() && (#[trigger] entries[i]).0@ == key,
        forall|i: int|
            0 <= i < entries.len() && (#[trigger] entries[i]).0@ == key && is_last_entry(
                entries,
                i,
            ) ==> text_map::entry_texts(entries)[key] == entries[i].1@,
    decreases entries.len(),
{
    if entries.len() > 0 {
        let front = entries.drop_last();
        let n = entries.len() - 1;
        lemma_entry_texts(front, key);
        assert(entries[n] == entries.last());
        if exists|i: int| 0 <= i < front.len() && (#[trigger] front[i]).0@ == key {
            let i = choose|i: int| 0 <= i < front.len() && (#[trigger] front[i]).0@ == key;
            assert(entries[i].0@ == key);
        }
        if exists|i: int| 0 <= i < entries.len() && (#[trigger] entries[i]).0@ == key {
            let i = choose|i: int| 0 <= i < entries.len() && (#[trigger] entries[i]).0@ == key;
            if i < n {
                assert(front[i].0@ == key);
            }
        }
        assert forall|i: int|
            0 <= i < entries.len() && (#[trigger] entries[i]).0@ == key && is_last_entry(
                entries,
                i,
            ) implies text_map::entry_texts(entries)[key] == entries[i].1@ by {
            if i < n {
                assert(entries[n].0@ != key);
                assert(front[i] == entries[i]);
                assert(is_last_entry(front, i)) by {
                    assert forall|j: int| i < j < front.len() implies (#[trigger] front[j]).0@
                        != front[i].0@ by {
                        assert(entries[j] == front[j]);
                    }
                }
            }
        }
    }
}

// ── Images ───────────────────────────────────────────────────────────────────

/// A list of images without repeated attachments grows with the list, by each image whose
/// attachment the list did not hold.
pub proof fn law_the_first_image_of_an_attachment_stays(images: Seq<ImageModel>, more: ImageModel)
    ensures
        card_note::distinct_images(Seq::empty()) == Seq::<ImageModel>::empty(),
        card_note::distinct_images(images.push(more)) == if exists|i: int|
            0 <= i < images.len() && (#[trigger] images[i]).upload_key == more.upload_key {
            card_note::distinct_images(images)
        } else {
            card_note::distinct_images(images).push(more)
        },
{
    assert(images.push(more).drop_last() =~= images);
    lemma_distinct_keys(images, more.upload_key);
    if card_note::has_key(images, more.upload_key) {
        let i = choose|i: int|
            0 <= i < images.len() && (#[trigger] images[i]).upload_key == more.upload_key;
        assert(images[i].upload_key == more.upload_key);
    }
}

/// Images without repeated attachments are of the same attachments, and are among the images.
proof fn lemma_distinct_keys(images: Seq<ImageModel>, key: Seq<char>)
    ensures
        card_note::has_key(card_note::distinct_images(images), key) <==> card_note::has_key(
            images,
            key,
        ),
        forall|i: int|
            0 <= i < card_note::distinct_images(images).len() ==> images.contains(
                #[trigger] card_note::distinct_images(images)[i],
            ),
    decreases images.len(),
{
    if images.len() > 0 {
        let front = images.drop_last();
        let last = images.last();
        let before = card_note::distinct_images(front);
        let after = card_note::distinct_images(images);
        lemma_distinct_keys(front, key);
        lemma_distinct_keys(front, last.upload_key);
        assert(images[images.len() - 1] == last);
        if card_note::has_key(front, key) {
            let i = choose|i: int| 0 <= i < front.len() && (#[trigger] front[i]).upload_key == key;
            assert(images[i] == front[i]);
        }
        if card_note::has_key(images, key) && last.upload_key != key {
            let i = choose|i: int|
                0 <= i < images.len() && (#[trigger] images[i]).upload_key == key;
            assert(front[i] == images[i]);
        }
        if card_note::has_key(before, key) {
            let i = choose|i: int|
                0 <= i < before.len() && (#[trigger] before[i]).upload_key == key;
            assert(after[i] == before[i]);
        }
        if card_note::has_key(after, key) && last.upload_key != key {
            let i = choose|i: int| 0 <= i < after.len() && (#[trigger] after[i]).upload_key == key;
            assert(before[i] == after[i]);
        }
        if !card_note::has_key(before, last.upload_key) {
            assert(after[before.len() as int] == last);
        }
        assert forall|i: int| 0 <= i < after.len() implies images.contains(
            #[trigger] after[i],
        ) by {
            if i < before.len() {
                assert(after[i] == before[i]);
                let k = choose|k: int| 0 <= k < front.len() && front[k] == before[i];
                assert(images[k] == before[i]);
            }
        }
    }
}

/// A text refers to an image where a link leads to its file.
pub open spec fn links_to(text: Seq<char>, image: ImageModel) -> bool {
    text::contains(text, "]("@ + image.filename + ")"@) || text::contains(
        text,
        "]("@ + text::expand(image.filename, render::link_image()) + ")"@,
    )
}

/// The images of a card are images of its note to which one of its texts refers; and the
/// attachment of each such image is among them.
pub proof fn law_cards_have_the_images_of_all_their_sides(
    card: CardModel,
    images: Seq<ImageModel>,
    image: ImageModel,
    i: int,
)
    requires
        0 <= i < (match card.kind {
            Sides::Basic { .. } => 2int,
            Sides::Cloze { .. } => 1,
        }),
    ensures
        ({
            let side = match card.kind {
                Sides::Basic { front, back } => if i == 0 {
                    front
                } else {
                    back
                },
                Sides::Cloze { text } => text,
            };
            let found = card_note::images_of(card, images);
            &&& images.contains(image) && links_to(side, image) ==> exists|k: int|
                0 <= k < found.len() && (#[trigger] found[k]).upload_key == image.upload_key
            &&& found.contains(image) ==> images.contains(image) && (match card.kind {
                Sides::Basic { front, back } => links_to(front, image) || links_to(back, image),
                Sides::Cloze { text } => links_to(text, image),
            })
        }),
{
    let found = card_note::images_of(card, images);
    match card.kind {
        Sides::Basic { front, back } => {
            let first = images.filter(render::refers_to(front));
            let second = images.filter(render::refers_to(back));
            render_laws::law_referenced_images_are_linked(front, images, image);
            render_laws::law_referenced_images_are_linked(back, images, image);
            lemma_distinct_keys(first + second, image.upload_key);
            let side = if i == 0 {
                front
            } else {
                back
            };
            if images.contains(image) && links_to(side, image) {
                let part = if i == 0 {
                    first
                } else {
                    second
                };
                let k = choose|k: int| 0 <= k < part.len() && part[k] == image;
                let at = if i == 0 {
                    k
                } else {
                    first.len() + k
                };
                assert((first + second)[at].upload_key == image.upload_key);
            }
            if found.contains(image) {
                let k = choose|k: int| 0 <= k < found.len() && found[k] == image;
                assert((first + second).contains(found[k]));
                let m = choose|m: int|
                    0 <= m < (first + second).len() && (first + second)[m] == image;
                if m < first.len() {
                    assert(first[m] == image);
                } else {
                    assert(second[m - first.len()] == image);
                }
            }
        },
        Sides::Cloze { text } => {
            let some = images.filter(render::refers_to(text));
            render_laws::law_referenced_images_are_linked(text, images, image);
            lemma_distinct_keys(some, image.upload_key);
            if images.contains(image) && links_to(text, image) {
                let k = choose|k: int| 0 <= k < some.len() && some[k] == image;
                assert(some[k].upload_key == image.upload_key);
            }
            if found.contains(image) {
                let k = choose|k: int| 0 <= k < found.len() && found[k] == image;
                assert(some.contains(found[k]));
            }
        },
    }
}

// ── Prompts ──────────────────────────────────────────────────────────────────

/// A card shows the headings above it, one behind the other with the separator between them, if
/// the settings say so and there are any.
pub proof fn law_cards_show_their_headings(
    card: CardModel,
    settings: ConfigModel,
    a: Seq<Seq<char>>,
    b: Seq<Seq<char>>,
    title: Seq<char>,
)
    requires
        a.len() > 0,
        b.len() > 0,
    ensures
        ({
            let shown = ConfigModel { include_card_context: true, ..settings };
            let hidden = ConfigModel { include_card_context: false, ..settings };
            let at = |context: Seq<Seq<char>>|
                card_note::context_label(CardModel { context, ..card }, shown);
            &&& card_note::context_label(card, hidden) is None
            &&& at(Seq::empty()) is None
            &&& at(seq![title]) == Some(title)
            &&& at(a) matches Some(x) && at(b) matches Some(y) && at(a + b) == Some(
                x + settings.card_context_separator + y,
            )
        }),
{
    text_laws::law_parts_are_joined_in_order(title, a, b, settings.card_context_separator);
}

/// The prompt of a card ends with its text, whatever comes before: the same for every text.
pub proof fn law_prompts_end_with_the_text(
    html: Seq<char>,
    card: CardModel,
    settings: ConfigModel,
)
    ensures
        card_note::prompt_of(html, card, settings) == card_note::prompt_of(
            Seq::empty(),
            card,
            settings,
        ) + html,
{
    let none = Seq::<char>::empty();
    let label = card_note::context_label(card, settings);
    assert(card_note::below_context(html, label) =~= card_note::below_context(none, label) + html);
    assert(card_note::prompt_of(html, card, settings) =~= card_note::prompt_of(
        none,
        card,
        settings,
    ) + html);
}

/// Before the text stand the sort key, hidden, and then the headings that are shown, if any, on a
/// line of their own, both as HTML text.
pub proof fn law_prompts_begin_with_the_sort_key(
    html: Seq<char>,
    card: CardModel,
    settings: ConfigModel,
)
    ensures
        ({
            let key = text::expand(card.sort_key, card_note::text_image());
            let hidden = "<span class=\"bear-anki-order\" style=\"display:none\">"@ + key
                + " </span>"@;
            let prompt = card_note::prompt_of(html, card, settings);
            match card_note::context_label(card, settings) {
                None => prompt == hidden + html,
                Some(label) => exists|pill: Seq<char>|
                    prompt == #[trigger] (hidden + pill + text::expand(
                        label,
                        card_note::text_image(),
                    ) + "</div>\n"@ + html) && text::starts_with(
                        pill,
                        "<div class=\"bear-anki-context\" "@,
                    ) && pill.len() > 0 && pill.last() == '>',
            }
        }),
{
    let key = text::expand(card.sort_key, card_note::text_image());
    let hidden = "<span class=\"bear-anki-order\" style=\"display:none\">"@ + key + " </span>"@;
    let prompt = card_note::prompt_of(html, card, settings);
    if let Some(label) = card_note::context_label(card, settings) {
        let pill = "<div class=\"bear-anki-context\" style=\"display:inline-block;margin:0 0 0.65em 0;padding:0.18em 0.55em;border-radius:999px;background:#eef0f3;color:#5f6670;font-size:0.78em;font-weight:600;line-height:1.45;\">"@;
        lemma_pill();
        let shown = text::expand(label, card_note::text_image());
        assert(prompt =~= hidden + pill + shown + "</div>\n"@ + html);
    }
}

proof fn lemma_pill()
    ensures
        ({
            let pill = "<div class=\"bear-anki-context\" style=\"display:inline-block;margin:0 0 0.65em 0;padding:0.18em 0.55em;border-radius:999px;background:#eef0f3;color:#5f6670;font-size:0.78em;font-weight:600;line-height:1.45;\">"@;
            text::starts_with(pill, "<div class=\"bear-anki-context\" "@) && pill.len() > 0
                && pill.last() == '>'
        }),
{
    reveal_strlit("<div class=\"bear-anki-context\" style=\"display:inline-block;margin:0 0 0.65em 0;padding:0.18em 0.55em;border-radius:999px;background:#eef0f3;color:#5f6670;font-size:0.78em;font-weight:600;line-height:1.45;\">");
    reveal_strlit("<div class=\"bear-anki-context\" ");
    let pill = "<div class=\"bear-anki-context\" style=\"display:inline-block;margin:0 0 0.65em 0;padding:0.18em 0.55em;border-radius:999px;background:#eef0f3;color:#5f6670;font-size:0.78em;font-weight:600;line-height:1.45;\">"@;
    let start = "<div class=\"bear-anki-context\" "@;
    assert(pill.subrange(0, start.len() as int) =~= start);
}

// ── Notes ────────────────────────────────────────────────────────────────────

/// A card with two sides makes a note of the basic type, with the prompt before its front; one
/// with blanks makes a note of the cloze type, with the prompt before its text. Nothing but the
/// prompt depends on the settings, and the deck and the tags are as they are.
pub proof fn law_notes_follow_the_sides(
    card: CardModel,
    front: Seq<char>,
    back: Seq<char>,
    tags: Seq<Seq<char>>,
    settings: ConfigModel,
    other: ConfigModel,
)
    ensures
        ({
            let two = CardModel { kind: Sides::Basic { front, back }, ..card };
            let one = CardModel { kind: Sides::Cloze { text: front }, ..card };
            let note = card_note::note_of(two, seq![front, back], tags, settings);
            let cloze = card_note::note_of(one, seq![front], tags, settings);
            &&& note.model == "Basic"@ && cloze.model == "Cloze"@
            &&& note.deck == card.deck && cloze.deck == card.deck
            &&& note.tags == tags && cloze.tags == tags
            &&& note.fields.len() == 2 && note.fields[0].0 == "Front"@ && note.fields[1] == (
                "Back"@,
                back,
            )
            &&& cloze.fields.len() == 1 && cloze.fields[0].0 == "Text"@
            &&& note.fields[0].1 == cloze.fields[0].1
            &&& exists|start: Seq<char>| note.fields[0].1 == #[trigger] (start + front)
            &&& card_note::note_of(two, seq![front, back], tags, other).fields[1] == note.fields[1]
            &&& card_note::texts_of(two) == seq![front, back] && card_note::texts_of(one) == seq![
                front,
            ]
        }),
{
    let two = CardModel { kind: Sides::Basic { front, back }, ..card };
    let one = CardModel { kind: Sides::Cloze { text: front }, ..card };
    law_prompts_end_with_the_text(front, two, settings);
    assert(card_note::context_label(two, settings) == card_note::context_label(one, settings));
}

/// The preview of a card is its prompt; of a prompt with more than sixty characters the first
/// sixty and an ellipsis.
pub proof fn law_previews_are_the_beginning_of_the_prompt(
    card: CardModel,
    front: Seq<char>,
    back: Seq<char>,
    rest: Seq<char>,
)
    requires
        front.len() == 60,
    ensures
        ({
            let of = |text: Seq<char>|
                card_note::preview_of(CardModel { kind: Sides::Basic { front: text, back }, ..card });
            &&& rest.len() > 0 ==> of(front + rest) == front + seq!['…']
            &&& rest.len() <= 60 ==> of(rest) == rest
            &&& card_note::preview_of(CardModel { kind: Sides::Cloze { text: rest }, ..card })
                == of(rest)
        }),
{
    reveal_strlit("…");
    assert("…"@ =~= seq!['…']);
    assert((front + rest).take(60) =~= front);
}

// ── Digests ──────────────────────────────────────────────────────────────────

/// The value of a hexadecimal digit.
pub open spec fn digit_value(c: char) -> int {
    if c <= '9' {
        c as int - 48
    } else {
        c as int - 87
    }
}

/// A short digest is the first eight bytes of the whole one: each is written in two hexadecimal
/// digits, the high one first.
pub proof fn law_short_digests_are_the_first_bytes(data: &[u8], hash: String, i: int)
    requires
        call_ensures(digest::short_hash, (data,), hash),
        digest::sha256(data@).len() == 32,
        0 <= i < 8,
    ensures
        hash@.len() == 16,
        16 * digit_value(hash@[2 * i]) + digit_value(hash@[2 * i + 1]) == digest::sha256(
            data@,
        )[i],
{
    let bytes = digest::sha256(data@).take(8);
    assert(hash@ == digest::hex_text(bytes));
    assert(bytes.len() == 8);
    let byte = bytes[i] as int;
    assert((2 * i) / 2 == i && (2 * i + 1) / 2 == i && (2 * i) % 2 == 0 && (2 * i + 1) % 2 == 1);
    assert(hash@[2 * i] == digest::hex_digit(byte / 16));
    assert(hash@[2 * i + 1] == digest::hex_digit(byte % 16));
    assert(0 <= byte / 16 < 16 && 0 <= byte % 16 < 16);
}

/// The digest by which a card is known is that of the text that identifies it, and the one by
/// which its changes are seen is that of all that it covers.
pub proof fn law_digests_are_of_the_text_in_bytes(
    text: Seq<char>,
    card: CardModel,
    tags: Seq<Seq<char>>,
    images: Seq<ImageModel>,
    context: Option<Seq<char>>,
)
    ensures
        parser::fingerprint_of(text) == digest::short_hash_of(vstd::utf8::encode_utf8(text)),
        card_note::content_hash_of(card, tags, images, context) == digest::short_hash_of(
            vstd::utf8::encode_utf8(card_note::hashed_text(card, tags, images, context)),
        ),
{
}

/// The text that the digest of a card covers grows with the images of the card by the name, the
/// key, the digest and the name in Anki of each; without images, tags and headings it is the deck,
/// the sort key, the callout type and the sides.
pub proof fn law_digests_cover_each_image(
    card: CardModel,
    tags: Seq<Seq<char>>,
    images: Seq<ImageModel>,
    image: ImageModel,
    context: Option<Seq<char>>,
)
    ensures
        ({
            let nul = seq!['\0'];
            let sides = match card.kind {
                Sides::Basic { front, back } => front + nul + back,
                Sides::Cloze { text } => text,
            };
            let label = match context {
                Some(l) => l,
                None => Seq::empty(),
            };
            &&& card_note::hashed_text(card, tags, images.push(image), context)
                == card_note::hashed_text(card, tags, images, context) + image.filename + nul
                + image.upload_key + nul + image.content_hash + nul + render::anki_name(image)
                + nul
            &&& card_note::hashed_text(card, tags, Seq::empty(), context) == card.deck + nul
                + card.sort_key + nul + card.callout_type + nul + sides + "\0tags\0"@
                + text::terminated(tags, nul) + "\0context\0"@ + label + "\0images\0"@
        }),
{
    reveal_strlit("\0");
    let nul = seq!['\0'];
    assert("\0"@ =~= nul);
    assert(images.push(image).drop_last() =~= images);
    assert(card_note::hashed_images(images.push(image)) == card_note::hashed_images(images)
        + card_note::hashed_image(image));
    assert(card_note::hashed_text(card, tags, images.push(image), context)
        =~= card_note::hashed_text(card, tags, images, context) + image.filename + nul
        + image.upload_key + nul + image.content_hash + nul + render::anki_name(image) + nul);
    let sides = match card.kind {
        Sides::Basic { front, back } => front + nul + back,
        Sides::Cloze { text } => text,
    };
    let label = match context {
        Some(l) => l,
        None => Seq::empty(),
    };
    assert(card_note::hashed_text(card, tags, Seq::empty(), context) =~= card.deck + nul
        + card.sort_key + nul + card.callout_type + nul + sides + "\0tags\0"@ + text::terminated(
        tags,
        nul,
    ) + "\0context\0"@ + label + "\0images\0"@);
}

} // verus!
