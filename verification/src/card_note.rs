//! The Anki note of a card: its tags, its fields, and the digest by which changes are seen.

use vstd::prelude::*;

use crate::anki::{AnkiNote, NoteModel};
use crate::chars;
use crate::config;
use crate::config::{Config, ConfigModel};
use crate::digest;
use crate::lists;
use crate::parser::{Card, CardKind, CardModel, Sides};
use crate::render;
use crate::render::{ImageModel, NoteImage};
use crate::text;

verus! {

// ── Tags ─────────────────────────────────────────────────────────────────────

/// A list without the members that stood in it before.
pub open spec fn distinct<A>(list: Seq<A>) -> Seq<A>
    decreases list.len(),
{
    if list.len() == 0 {
        list
    } else {
        let front = distinct(list.drop_last());
        if front.contains(list.last()) {
            front
        } else {
            front.push(list.last())
        }
    }
}

/// A list without repetitions holds what the list holds.
pub proof fn lemma_distinct<A>(list: Seq<A>)
    ensures
        distinct(list).no_duplicates(),
        forall|x: A| #[trigger] distinct(list).contains(x) <==> list.contains(x),
    decreases list.len(),
{
    if list.len() > 0 {
        let front = list.drop_last();
        lemma_distinct(front);
        lists::lemma_push_contains(front, list.last());
        lists::lemma_push_contains(distinct(front), list.last());
        assert(list =~= front.push(list.last()));
    }
}

/// Removes repeated texts. The first one of each stays, in its place.
pub fn dedup_preserve_order(tags: Vec<String>) -> (out: Vec<String>)
    ensures
        text::texts(out@) == distinct(text::texts(tags@)),
{
    let mut out: Vec<String> = Vec::new();
    let ghost all = text::texts(tags@);
    assert(text::texts(out@) == distinct(all.take(0)));
    for i in 0..tags.len()
        invariant
            all == text::texts(tags@),
            text::texts(out@) == distinct(all.take(i as int)),
    {
        assert(all.take(i + 1).drop_last() == all.take(i as int));
        assert(all.take(i + 1).last() == tags@[i as int]@);
        if !contains_text(&out, tags[i].as_str()) {
            let ghost before = out@;
            out.push(tags[i].clone());
            assert(text::texts(out@) == text::texts(before).push(tags@[i as int]@));
        }
    }
    assert(all.take(all.len() as int) == all);
    out
}

/// Tells whether a list holds a text.
pub fn contains_text(list: &Vec<String>, wanted: &str) -> (found: bool)
    ensures
        found == text::texts(list@).contains(wanted@),
{
    for i in 0..list.len()
        invariant
            forall|j: int| 0 <= j < i ==> (#[trigger] list@[j])@ != wanted@,
    {
        if chars::same_text(list[i].as_str(), wanted) {
            assert(text::texts(list@)[i as int] == wanted@);
            return true;
        }
    }
    false
}

/// What stands for a character of a Bear tag in an Anki tag.
pub open spec fn tag_image() -> spec_fn(char) -> Seq<char> {
    |c: char|
        if c == '/' {
            "::"@
        } else {
            seq![c]
        }
}

/// A Bear tag as an Anki tag: the levels are parted by `::`.
pub fn anki_tag(tag: &str) -> (name: String)
    ensures
        name@ == text::expand(tag@, tag_image()),
{
    let mut name = String::new();
    for c in it: tag.chars()
        invariant
            it.seq() == tag@,
            name@ == text::expand(tag@.take(it.index()), tag_image()),
    {
        assert(tag@.take(it.index() + 1).drop_last() == tag@.take(it.index()));
        if c == '/' {
            name.append("::");
        } else {
            name.push(c);
        }
    }
    assert(tag@.take(tag@.len() as int) == tag@);
    name
}

/// The Anki tags of a card: that of its callout type, then those of its note, each one once.
pub open spec fn tags_of(
    card: CardModel,
    bear_tags: Seq<Seq<char>>,
    settings: ConfigModel,
) -> Seq<Seq<char>> {
    distinct(
        seq![config::tag_of(settings.tags, card.callout_type)] + bear_tags.map_values(
            |tag: Seq<char>| text::expand(tag, tag_image()),
        ),
    )
}

/// The Anki tags of a card.
pub fn build_tags(card: &Card, bear_tags: &[String], settings: &Config) -> (tags: Vec<String>)
    ensures
        text::texts(tags@) == tags_of(card@, text::texts(bear_tags@), settings@),
{
    let mut tags: Vec<String> = Vec::new();
    tags.push(settings.tag_for(card.callout_type.as_str()));
    let ghost first = seq![config::tag_of(settings@.tags, card@.callout_type)];
    let ghost names = text::texts(bear_tags@).map_values(
        |tag: Seq<char>| text::expand(tag, tag_image()),
    );
    assert(text::texts(tags@) == first + names.take(0));
    for i in 0..bear_tags.len()
        invariant
            names == text::texts(bear_tags@).map_values(
                |tag: Seq<char>| text::expand(tag, tag_image()),
            ),
            text::texts(tags@) == first + names.take(i as int),
    {
        let ghost before = tags@;
        tags.push(anki_tag(bear_tags[i].as_str()));
        assert(names[i as int] == text::expand(bear_tags@[i as int]@, tag_image()));
        assert(text::texts(tags@) == text::texts(before).push(names[i as int]));
        assert(first + names.take(i + 1) == (first + names.take(i as int)).push(names[i as int]));
    }
    assert(names.take(names.len() as int) == names);
    dedup_preserve_order(tags)
}

// ── Images ───────────────────────────────────────────────────────────────────

/// A list of images without those whose attachment stood in it before.
pub open spec fn distinct_images(images: Seq<ImageModel>) -> Seq<ImageModel>
    decreases images.len(),
{
    if images.len() == 0 {
        images
    } else {
        let front = distinct_images(images.drop_last());
        if has_key(front, images.last().upload_key) {
            front
        } else {
            front.push(images.last())
        }
    }
}

/// One of the images is that attachment.
pub open spec fn has_key(images: Seq<ImageModel>, upload_key: Seq<char>) -> bool {
    exists|i: int| 0 <= i < images.len() && (#[trigger] images[i]).upload_key == upload_key
}

/// Removes repeated attachments. The first one of each stays, in its place.
pub fn dedup_images<'a>(images: Vec<&'a NoteImage>) -> (out: Vec<&'a NoteImage>)
    ensures
        render::image_models(out@.unref()) == distinct_images(
            render::image_models(images@.unref()),
        ),
{
    let mut out: Vec<&'a NoteImage> = Vec::new();
    let ghost all = render::image_models(images@.unref());
    assert(render::image_models(out@.unref()) == distinct_images(all.take(0)));
    for i in 0..images.len()
        invariant
            all == render::image_models(images@.unref()),
            render::image_models(out@.unref()) == distinct_images(all.take(i as int)),
    {
        let image = images[i];
        assert(all.take(i + 1).drop_last() == all.take(i as int));
        assert(all.take(i + 1).last() == image@);
        let ghost kept = render::image_models(out@.unref());
        let mut found = false;
        for j in 0..out.len()
            invariant
                kept == render::image_models(out@.unref()),
                found ==> has_key(kept, image@.upload_key),
                !found ==> forall|x: int|
                    0 <= x < j ==> (#[trigger] kept[x]).upload_key != image@.upload_key,
        {
            assert(kept[j as int] == out@[j as int]@);
            if chars::same_text(out[j].upload_key.as_str(), image.upload_key.as_str()) {
                found = true;
            }
        }
        if !found {
            let ghost before = out@;
            out.push(image);
            assert(render::image_models(out@.unref()) == kept.push(image@));
        }
    }
    assert(all.take(all.len() as int) == all);
    out
}

/// The images that the texts of a card refer to, each attachment once.
pub open spec fn images_of(card: CardModel, images: Seq<ImageModel>) -> Seq<ImageModel> {
    distinct_images(
        match card.kind {
            Sides::Basic { front, back } => images.filter(render::refers_to(front))
                + images.filter(render::refers_to(back)),
            Sides::Cloze { text } => images.filter(render::refers_to(text)),
        },
    )
}

/// The images that the texts of a card refer to, each attachment once.
pub fn card_referenced_images<'a>(card: &Card, image_files: &'a [NoteImage]) -> (images: Vec<
    &'a NoteImage,
>)
    ensures
        render::image_models(images@.unref()) == images_of(
            card@,
            render::image_models(image_files@),
        ),
{
    let refs: Vec<&'a NoteImage> = match &card.kind {
        CardKind::Basic { front, back } => {
            let mut refs = render::referenced_images(front.as_str(), image_files);
            let more = render::referenced_images(back.as_str(), image_files);
            let ghost first = render::image_models(refs@.unref());
            let ghost second = render::image_models(more@.unref());
            for i in 0..more.len()
                invariant
                    second == render::image_models(more@.unref()),
                    render::image_models(refs@.unref()) == first + second.take(i as int),
            {
                let ghost before = refs@;
                refs.push(more[i]);
                assert(second[i as int] == more@[i as int]@);
                assert(render::image_models(refs@.unref()) == render::image_models(
                    before.unref(),
                ).push(second[i as int]));
                assert(first + second.take(i + 1) == (first + second.take(i as int)).push(
                    second[i as int],
                ));
            }
            assert(second.take(second.len() as int) == second);
            refs
        },
        CardKind::Cloze { text } => render::referenced_images(text.as_str(), image_files),
    };
    dedup_images(refs)
}

// ── Prompts ──────────────────────────────────────────────────────────────────

/// What stands for a character in HTML text.
pub open spec fn text_image() -> spec_fn(char) -> Seq<char> {
    |c: char|
        if c == '&' {
            "&amp;"@
        } else if c == '<' {
            "&lt;"@
        } else if c == '>' {
            "&gt;"@
        } else {
            seq![c]
        }
}

/// Escapes the characters that are unsafe in HTML text.
pub fn escape_html_text(s: &str) -> (escaped: String)
    ensures
        escaped@ == text::expand(s@, text_image()),
{
    let mut escaped = String::new();
    for c in it: s.chars()
        invariant
            it.seq() == s@,
            escaped@ == text::expand(s@.take(it.index()), text_image()),
    {
        assert(s@.take(it.index() + 1).drop_last() == s@.take(it.index()));
        match c {
            '&' => escaped.append("&amp;"),
            '<' => escaped.append("&lt;"),
            '>' => escaped.append("&gt;"),
            _ => escaped.push(c),
        }
    }
    assert(s@.take(s@.len() as int) == s@);
    escaped
}

/// The headings that a card shows: none where the settings say so or where it has none.
pub open spec fn context_label(card: CardModel, settings: ConfigModel) -> Option<Seq<char>> {
    if !settings.include_card_context || card.context.len() == 0 {
        None
    } else {
        Some(text::join(card.context, settings.card_context_separator))
    }
}

/// The headings that a card shows.
pub fn card_context_label(card: &Card, settings: &Config) -> (label: Option<String>)
    ensures
        text::opt_text(label) == context_label(card@, settings@),
{
    if !settings.include_card_context || card.context.len() == 0 {
        None
    } else {
        Some(
            chars::join(card.context.as_slice(), settings.card_context_separator.as_str()),
        )
    }
}

/// A prompt below the headings of its card.
pub open spec fn below_context(html: Seq<char>, context: Option<Seq<char>>) -> Seq<char> {
    match context {
        None => html,
        Some(label) => "<div class=\"bear-anki-context\" style=\"display:inline-block;margin:0 0 0.65em 0;padding:0.18em 0.55em;border-radius:999px;background:#eef0f3;color:#5f6670;font-size:0.78em;font-weight:600;line-height:1.45;\">"@
            + text::expand(label, text_image()) + "</div>\n"@ + html,
    }
}

/// Puts the headings of a card above its prompt.
pub fn with_context_pill(html: String, context: Option<&str>) -> (out: String)
    ensures
        out@ == below_context(
            html@,
            match context {
                Some(label) => Some(label@),
                None => None,
            },
        ),
{
    match context {
        None => html,
        Some(label) => {
            let mut out = "<div class=\"bear-anki-context\" style=\"display:inline-block;margin:0 0 0.65em 0;padding:0.18em 0.55em;border-radius:999px;background:#eef0f3;color:#5f6670;font-size:0.78em;font-weight:600;line-height:1.45;\">".to_owned();
            out.append(escape_html_text(label).as_str());
            out.append("</div>\n");
            out.append(html.as_str());
            assert(out@ == below_context(html@, Some(label@)));
            out
        },
    }
}

/// A prompt behind the hidden key by which Anki sorts it.
pub open spec fn behind_sort_key(html: Seq<char>, sort_key: Seq<char>) -> Seq<char> {
    "<span class=\"bear-anki-order\" style=\"display:none\">"@ + text::expand(sort_key, text_image())
        + " </span>"@ + html
}

/// Puts the sort key of a card, hidden, before its prompt.
pub fn with_sort_key_prefix(html: String, sort_key: &str) -> (out: String)
    ensures
        out@ == behind_sort_key(html@, sort_key@),
{
    let mut out = "<span class=\"bear-anki-order\" style=\"display:none\">".to_owned();
    out.append(escape_html_text(sort_key).as_str());
    out.append(" </span>");
    out.append(html.as_str());
    assert(out@ == behind_sort_key(html@, sort_key@));
    out
}

/// The prompt of a card: its sort key, its headings, its text.
pub open spec fn prompt_of(html: Seq<char>, card: CardModel, settings: ConfigModel) -> Seq<char> {
    behind_sort_key(below_context(html, context_label(card, settings)), card.sort_key)
}

/// Puts the sort key and the headings of a card before its text.
pub fn decorate_prompt_html(html: String, card: &Card, settings: &Config) -> (out: String)
    ensures
        out@ == prompt_of(html@, card@, settings@),
{
    let label = card_context_label(card, settings);
    let html = match &label {
        Some(l) => with_context_pill(html, Some(l.as_str())),
        None => with_context_pill(html, None),
    };
    with_sort_key_prefix(html, card.sort_key.as_str())
}

// ── Notes ────────────────────────────────────────────────────────────────────

/// The texts of a card in the order in which they are rendered.
pub open spec fn texts_of(card: CardModel) -> Seq<Seq<char>> {
    match card.kind {
        Sides::Basic { front, back } => seq![front, back],
        Sides::Cloze { text } => seq![text],
    }
}

/// The texts of a card in the order in which they are rendered.
pub fn card_texts(card: &Card) -> (list: Vec<String>)
    ensures
        text::texts(list@) == texts_of(card@),
{
    let mut list: Vec<String> = Vec::new();
    match &card.kind {
        CardKind::Basic { front, back } => {
            list.push(front.clone());
            list.push(back.clone());
        },
        CardKind::Cloze { text } => {
            list.push(text.clone());
        },
    }
    assert(text::texts(list@) == texts_of(card@));
    list
}

/// The Anki note of a card whose texts are rendered.
pub open spec fn note_of(
    card: CardModel,
    html: Seq<Seq<char>>,
    tags: Seq<Seq<char>>,
    settings: ConfigModel,
) -> NoteModel {
    NoteModel {
        deck: card.deck,
        model: kind_name(card),
        fields: match card.kind {
            Sides::Basic { .. } => seq![
                ("Front"@, prompt_of(html[0], card, settings)),
                ("Back"@, html[1]),
            ],
            Sides::Cloze { .. } => seq![("Text"@, prompt_of(html[0], card, settings))],
        },
        tags,
    }
}

/// Makes the Anki note of a card whose texts are rendered.
pub fn build_anki_note(card: &Card, html: &Vec<String>, tags: Vec<String>, settings: &Config) -> (note:
    AnkiNote)
    requires
        html@.len() == texts_of(card@).len(),
    ensures
        note@ == note_of(card@, text::texts(html@), text::texts(tags@), settings@),
{
    let mut fields: Vec<(String, String)> = Vec::new();
    let prompt = decorate_prompt_html(html[0].clone(), card, settings);
    let model = match &card.kind {
        CardKind::Basic { .. } => {
            fields.push(("Front".to_owned(), prompt));
            fields.push(("Back".to_owned(), html[1].clone()));
            "Basic".to_owned()
        },
        CardKind::Cloze { .. } => {
            fields.push(("Text".to_owned(), prompt));
            "Cloze".to_owned()
        },
    };
    let note = AnkiNote { deck: card.deck.clone(), model, fields, tags };
    assert(note@.fields == note_of(
        card@,
        text::texts(html@),
        text::texts(tags@),
        settings@,
    ).fields);
    note
}

/// The name of the kind of a card.
pub open spec fn kind_name(card: CardModel) -> Seq<char> {
    match card.kind {
        Sides::Basic { .. } => "Basic"@,
        Sides::Cloze { .. } => "Cloze"@,
    }
}

/// The name of the kind of a card.
pub fn display_kind(card: &Card) -> (name: &'static str)
    ensures
        name@ == kind_name(card@),
{
    match &card.kind {
        CardKind::Basic { .. } => "Basic",
        CardKind::Cloze { .. } => "Cloze",
    }
}

/// The first characters of a text.
pub open spec fn shortened(text: Seq<char>, limit: nat) -> Seq<char> {
    if text.len() > limit {
        text.take(limit as int)
    } else {
        text
    }
}

/// The first sixty characters of the prompt, with an ellipsis where it goes on.
pub open spec fn preview_of(card: CardModel) -> Seq<char> {
    let raw = texts_of(card)[0];
    if raw.len() > 60 {
        shortened(raw, 60) + "…"@
    } else {
        raw
    }
}

/// The beginning of the prompt of a card.
pub fn card_preview(card: &Card) -> (preview: String)
    ensures
        preview@ == preview_of(card@),
{
    let raw = match &card.kind {
        CardKind::Basic { front, .. } => front,
        CardKind::Cloze { text } => text,
    };
    let raw_chars = chars::to_chars(raw.as_str());
    if raw_chars.len() > 60 {
        let mut preview = chars::from_chars(chars::head(raw_chars.as_slice(), 60));
        preview.append("…");
        preview
    } else {
        raw.clone()
    }
}

// ── Digests ──────────────────────────────────────────────────────────────────

/// What the digest of a card covers of its sides.
pub open spec fn hashed_sides(kind: Sides) -> Seq<char> {
    match kind {
        Sides::Basic { front, back } => front + "\0"@ + back,
        Sides::Cloze { text } => text,
    }
}

/// What the digest of a card covers of an image.
pub open spec fn hashed_image(image: ImageModel) -> Seq<char> {
    image.filename + "\0"@ + image.upload_key + "\0"@ + image.content_hash + "\0"@
        + render::anki_name(image) + "\0"@
}

/// What the digest of a card covers of its images.
pub open spec fn hashed_images(images: Seq<ImageModel>) -> Seq<char>
    decreases images.len(),
{
    if images.len() == 0 {
        Seq::empty()
    } else {
        hashed_images(images.drop_last()) + hashed_image(images.last())
    }
}

/// The label of a context, where there is one.
pub open spec fn hashed_label(context: Option<Seq<char>>) -> Seq<char> {
    match context {
        Some(label) => label,
        None => Seq::empty(),
    }
}

/// What the digest of a card covers besides its place and its sides.
pub open spec fn hashed_rest(
    tags: Seq<Seq<char>>,
    images: Seq<ImageModel>,
    context: Option<Seq<char>>,
) -> Seq<char> {
    "\0tags\0"@ + text::terminated(tags, "\0"@) + "\0context\0"@ + hashed_label(context)
        + "\0images\0"@ + hashed_images(images)
}

/// What the digest of a card covers of the card itself.
pub open spec fn hashed_head(card: CardModel) -> Seq<char> {
    card.deck + "\0"@ + card.sort_key + "\0"@ + card.callout_type + "\0"@ + hashed_sides(card.kind)
}

/// What the digest of a card covers.
pub open spec fn hashed_text(
    card: CardModel,
    tags: Seq<Seq<char>>,
    images: Seq<ImageModel>,
    context: Option<Seq<char>>,
) -> Seq<char> {
    hashed_head(card) + hashed_rest(tags, images, context)
}

/// The digest of all that Anki shows of a card.
pub open spec fn content_hash_of(
    card: CardModel,
    tags: Seq<Seq<char>>,
    images: Seq<ImageModel>,
    context: Option<Seq<char>>,
) -> Seq<char> {
    digest::short_hash_of(vstd::utf8::encode_utf8(hashed_text(card, tags, images, context)))
}

/// What the digest of a card covers besides its place and its sides.
fn covered_rest(tags: &[String], images: &[&NoteImage], context: Option<&str>) -> (covered: String)
    ensures
        covered@ == hashed_rest(
            text::texts(tags@),
            render::image_models(images@.unref()),
            match context {
                Some(label) => Some(label@),
                None => None,
            },
        ),
{
    let mut covered = String::new();
    covered.append("\0tags\0");
    let ghost before_tags = covered@;
    let ghost names = text::texts(tags@);
    assert(covered@ == before_tags + text::terminated(names.take(0), "\0"@));
    for i in 0..tags.len()
        invariant
            names == text::texts(tags@),
            covered@ == before_tags + text::terminated(names.take(i as int), "\0"@),
    {
        assert(names.take(i + 1).drop_last() == names.take(i as int));
        covered.append(tags[i].as_str());
        covered.append("\0");
        assert(covered@ == before_tags + text::terminated(names.take(i + 1), "\0"@));
    }
    assert(names.take(names.len() as int) == names);
    covered.append("\0context\0");
    if let Some(label) = context {
        covered.append(label);
    }
    covered.append("\0images\0");
    let ghost before_images = covered@;
    let ghost models = render::image_models(images@.unref());
    assert(covered@ == before_images + hashed_images(models.take(0)));
    for i in 0..images.len()
        invariant
            models == render::image_models(images@.unref()),
            covered@ == before_images + hashed_images(models.take(i as int)),
    {
        assert(models.take(i + 1).drop_last() == models.take(i as int));
        let image = images[i];
        assert(models[i as int] == image@);
        covered.append(image.filename.as_str());
        covered.append("\0");
        covered.append(image.upload_key.as_str());
        covered.append("\0");
        covered.append(image.content_hash.as_str());
        covered.append("\0");
        covered.append(image.anki_filename().as_str());
        covered.append("\0");
        assert(covered@ == before_images + hashed_images(models.take(i + 1)));
    }
    assert(models.take(models.len() as int) == models);
    covered
}

/// The digest by which a change of a card is seen.
pub fn content_hash(
    card: &Card,
    tags: &[String],
    images: &[&NoteImage],
    context: Option<&str>,
) -> (hash: String)
    ensures
        hash@ == content_hash_of(
            card@,
            text::texts(tags@),
            render::image_models(images@.unref()),
            match context {
                Some(label) => Some(label@),
                None => None,
            },
        ),
        digest::is_short_hash(hash@),
{
    let mut covered = card.deck.clone();
    covered.append("\0");
    covered.append(card.sort_key.as_str());
    covered.append("\0");
    covered.append(card.callout_type.as_str());
    covered.append("\0");
    match &card.kind {
        CardKind::Basic { front, back } => {
            covered.append(front.as_str());
            covered.append("\0");
            covered.append(back.as_str());
        },
        CardKind::Cloze { text } => {
            covered.append(text.as_str());
        },
    }
    assert(covered@ == card@.deck + "\0"@ + card@.sort_key + "\0"@ + card@.callout_type + "\0"@
        + hashed_sides(card@.kind));
    let rest = covered_rest(tags, images, context);
    covered.append(rest.as_str());
    digest::short_hash(covered.as_str().as_bytes())
}

// ── Laws ─────────────────────────────────────────────────────────────────────

/// A card has the tag of its callout type first, then every tag of its note, and none twice.
pub proof fn law_tags_are_complete(
    card: CardModel,
    bear_tags: Seq<Seq<char>>,
    settings: ConfigModel,
)
    ensures
        ({
            let tags = tags_of(card, bear_tags, settings);
            &&& tags.no_duplicates()
            &&& tags.len() > 0 && tags[0] == config::tag_of(settings.tags, card.callout_type)
            &&& forall|i: int|
                0 <= i < bear_tags.len() ==> tags.contains(
                    text::expand(#[trigger] bear_tags[i], tag_image()),
                )
        }),
{
    let first = config::tag_of(settings.tags, card.callout_type);
    let names = bear_tags.map_values(|tag: Seq<char>| text::expand(tag, tag_image()));
    let all = seq![first] + names;
    lemma_distinct(all);
    lemma_distinct_first(all);
    assert forall|i: int| 0 <= i < bear_tags.len() implies distinct(all).contains(
        text::expand(#[trigger] bear_tags[i], tag_image()),
    ) by {
        assert(all[i + 1] == text::expand(bear_tags[i], tag_image()));
    }
}

/// The first member of a list stays the first one.
proof fn lemma_distinct_first<A>(list: Seq<A>)
    requires
        list.len() > 0,
    ensures
        distinct(list).len() > 0,
        distinct(list)[0] == list[0],
    decreases list.len(),
{
    if list.len() > 1 {
        lemma_distinct_first(list.drop_last());
    } else {
        assert(distinct(list.drop_last()) =~= Seq::<A>::empty());
    }
}

/// What differs in the middle differs.
#[verifier::spinoff_prover]
proof fn lemma_middle(before: Seq<char>, a: Seq<char>, b: Seq<char>, after: Seq<char>)
    requires
        before + a + after == before + b + after,
    ensures
        a == b,
{
    let left = before + a + after;
    let right = before + b + after;
    assert(left.len() == before.len() + a.len() + after.len());
    assert(right.len() == before.len() + b.len() + after.len());
    assert(a =~= left.subrange(before.len() as int, (before.len() + a.len()) as int));
    assert(b =~= right.subrange(before.len() as int, (before.len() + b.len()) as int));
    assert(a =~= b);
}

/// What the digest of a card covers tells apart two cards that differ in their deck alone, in
/// their place alone, in their callout type alone, or in their content alone.
pub proof fn law_digest_covers_what_changes(
    a: CardModel,
    b: CardModel,
    tags: Seq<Seq<char>>,
    images: Seq<ImageModel>,
    context: Option<Seq<char>>,
)
    requires
        hashed_text(a, tags, images, context) == hashed_text(b, tags, images, context),
    ensures
        a.sort_key == b.sort_key && a.callout_type == b.callout_type && a.kind == b.kind
            ==> a.deck == b.deck,
        a.deck == b.deck && a.callout_type == b.callout_type && a.kind == b.kind ==> a.sort_key
            == b.sort_key,
        a.deck == b.deck && a.sort_key == b.sort_key && a.kind == b.kind ==> a.callout_type
            == b.callout_type,
        a.deck == b.deck && a.sort_key == b.sort_key && a.callout_type == b.callout_type ==> {
            &&& hashed_sides(a.kind) == hashed_sides(b.kind)
            &&& differ_in_one_side_at_most(a.kind, b.kind) ==> a.kind == b.kind
        },
{
    let rest = hashed_rest(tags, images, context);
    let nul = "\0"@;
    lemma_regroup(a.deck, nul, a.sort_key, a.callout_type, hashed_sides(a.kind), rest);
    lemma_regroup(b.deck, nul, b.sort_key, b.callout_type, hashed_sides(b.kind), rest);
    let empty = Seq::<char>::empty();
    if a.sort_key == b.sort_key && a.callout_type == b.callout_type && a.kind == b.kind {
        let after = nul + a.sort_key + nul + a.callout_type + nul + hashed_sides(a.kind) + rest;
        lemma_middle(empty, a.deck, b.deck, after);
    }
    if a.deck == b.deck && a.callout_type == b.callout_type && a.kind == b.kind {
        let after = nul + a.callout_type + nul + hashed_sides(a.kind) + rest;
        lemma_middle(a.deck + nul, a.sort_key, b.sort_key, after);
    }
    if a.deck == b.deck && a.sort_key == b.sort_key && a.kind == b.kind {
        let after = nul + hashed_sides(a.kind) + rest;
        lemma_middle(a.deck + nul + a.sort_key + nul, a.callout_type, b.callout_type, after);
    }
    if a.deck == b.deck && a.sort_key == b.sort_key && a.callout_type == b.callout_type {
        let before = a.deck + nul + a.sort_key + nul + a.callout_type + nul;
        lemma_middle(before, hashed_sides(a.kind), hashed_sides(b.kind), rest);
        if let Sides::Basic { front, back } = a.kind {
            if let Sides::Basic { front: other_front, back: other_back } = b.kind {
                if front == other_front {
                    let start = front + nul;
                    assert(start + back + empty =~= start + back);
                    assert(start + other_back + empty =~= start + other_back);
                    lemma_middle(start, back, other_back, empty);
                } else if back == other_back {
                    assert(empty + front + (nul + back) =~= front + nul + back);
                    assert(empty + other_front + (nul + back) =~= other_front + nul + back);
                    lemma_middle(empty, front, other_front, nul + back);
                }
            }
        }
    }
}

/// The two are of the same kind and differ in one of their sides at most.
pub open spec fn differ_in_one_side_at_most(a: Sides, b: Sides) -> bool {
    match (a, b) {
        (Sides::Basic { front, back }, Sides::Basic { front: other_front, back: other_back }) => {
            front == other_front || back == other_back
        },
        (Sides::Cloze { .. }, Sides::Cloze { .. }) => true,
        _ => false,
    }
}

/// Four ways to take the parts of what a digest covers together.
proof fn lemma_regroup(
    deck: Seq<char>,
    nul: Seq<char>,
    sort_key: Seq<char>,
    callout_type: Seq<char>,
    sides: Seq<char>,
    rest: Seq<char>,
)
    ensures
        ({
            let all = deck + nul + sort_key + nul + callout_type + nul + sides + rest;
            &&& all == Seq::<char>::empty() + deck + (nul + sort_key + nul + callout_type + nul
                + sides + rest)
            &&& all == (deck + nul) + sort_key + (nul + callout_type + nul + sides + rest)
            &&& all == (deck + nul + sort_key + nul) + callout_type + (nul + sides + rest)
            &&& all == (deck + nul + sort_key + nul + callout_type + nul) + sides + rest
        }),
{
    let all = deck + nul + sort_key + nul + callout_type + nul + sides + rest;
    assert(all =~= Seq::<char>::empty() + deck + (nul + sort_key + nul + callout_type + nul + sides
        + rest));
    assert(all =~= (deck + nul) + sort_key + (nul + callout_type + nul + sides + rest));
    assert(all =~= (deck + nul + sort_key + nul) + callout_type + (nul + sides + rest));
}

/// The digest of a card is that of every card with the same deck, place, callout type and
/// content: its fingerprint and its context do not matter.
pub proof fn law_digest_covers_nothing_else(
    a: CardModel,
    b: CardModel,
    tags: Seq<Seq<char>>,
    images: Seq<ImageModel>,
    context: Option<Seq<char>>,
)
    requires
        a.deck == b.deck,
        a.sort_key == b.sort_key,
        a.callout_type == b.callout_type,
        a.kind == b.kind,
    ensures
        content_hash_of(a, tags, images, context) == content_hash_of(b, tags, images, context),
{
}

/// Three ways to take the tags, the context and the images together with what a digest covers
/// besides them.
proof fn lemma_regroup_rest(
    card: CardModel,
    tags: Seq<Seq<char>>,
    images: Seq<ImageModel>,
    context: Option<Seq<char>>,
)
    ensures
        ({
            let all = hashed_text(card, tags, images, context);
            let head = hashed_head(card);
            let names = text::terminated(tags, "\0"@);
            let label = hashed_label(context);
            let pictures = hashed_images(images);
            &&& all == (head + "\0tags\0"@) + names + ("\0context\0"@ + label + "\0images\0"@
                + pictures)
            &&& all == (head + "\0tags\0"@ + names + "\0context\0"@) + label + ("\0images\0"@
                + pictures)
            &&& all == (head + "\0tags\0"@ + names + "\0context\0"@ + label + "\0images\0"@)
                + pictures + Seq::<char>::empty()
        }),
{
    let all = hashed_text(card, tags, images, context);
    let head = hashed_head(card);
    let names = text::terminated(tags, "\0"@);
    let label = hashed_label(context);
    let pictures = hashed_images(images);
    assert(all =~= head + ("\0tags\0"@ + names + "\0context\0"@ + label + "\0images\0"@
        + pictures));
    assert(all =~= (head + "\0tags\0"@) + names + ("\0context\0"@ + label + "\0images\0"@
        + pictures));
    assert(all =~= (head + "\0tags\0"@ + names + "\0context\0"@) + label + ("\0images\0"@
        + pictures));
    assert(all =~= (head + "\0tags\0"@ + names + "\0context\0"@ + label + "\0images\0"@)
        + pictures + Seq::<char>::empty());
}

/// The parts of a list, taken apart at one of them.
proof fn lemma_terminated_at(parts: Seq<Seq<char>>, end: Seq<char>, i: int)
    requires
        0 <= i < parts.len(),
    ensures
        text::terminated(parts, end) == text::terminated(parts.take(i), end) + parts[i] + (end
            + text::terminated(parts.skip(i + 1), end)),
    decreases parts.len(),
{
    let all = text::terminated(parts, end);
    let before = text::terminated(parts.take(i), end);
    if i == parts.len() - 1 {
        assert(parts.take(i) =~= parts.drop_last());
        assert(parts.skip(i + 1) =~= Seq::empty());
        assert(all =~= before + parts[i] + (end + text::terminated(parts.skip(i + 1), end)));
    } else {
        let front = parts.drop_last();
        lemma_terminated_at(front, end, i);
        assert(front.take(i) =~= parts.take(i));
        assert(parts.skip(i + 1).drop_last() =~= front.skip(i + 1));
        assert(parts.skip(i + 1).last() == parts.last());
        assert(all =~= before + parts[i] + (end + text::terminated(parts.skip(i + 1), end)));
    }
}

/// What the digest of a card covers changes when a tag is added, wherever it stands, or replaced.
pub proof fn law_digest_covers_the_tags(
    card: CardModel,
    tags: Seq<Seq<char>>,
    i: int,
    tag: Seq<char>,
    images: Seq<ImageModel>,
    context: Option<Seq<char>>,
)
    requires
        0 <= i <= tags.len(),
    ensures
        hashed_text(card, tags.insert(i, tag), images, context) != hashed_text(
            card,
            tags,
            images,
            context,
        ),
        i < tags.len() && tag != tags[i] ==> hashed_text(
            card,
            tags.update(i, tag),
            images,
            context,
        ) != hashed_text(card, tags, images, context),
{
    let nul = "\0"@;
    reveal_strlit("\0");
    let more = tags.insert(i, tag);
    lemma_regroup_rest(card, tags, images, context);
    lemma_regroup_rest(card, more, images, context);
    lemma_terminated_at(more, nul, i);
    assert(more.take(i) =~= tags.take(i));
    assert(more.skip(i + 1) =~= tags.skip(i));
    lemma_terminated_split(tags, nul, i);
    assert(text::terminated(more, nul).len() == text::terminated(tags, nul).len() + tag.len() + 1);
    if i < tags.len() && tag != tags[i] {
        let other = tags.update(i, tag);
        lemma_regroup_rest(card, other, images, context);
        if hashed_text(card, other, images, context) == hashed_text(card, tags, images, context) {
            let after = "\0context\0"@ + hashed_label(context) + "\0images\0"@ + hashed_images(
                images,
            );
            lemma_middle(
                hashed_head(card) + "\0tags\0"@,
                text::terminated(other, nul),
                text::terminated(tags, nul),
                after,
            );
            lemma_terminated_at(tags, nul, i);
            lemma_terminated_at(other, nul, i);
            assert(other.take(i) =~= tags.take(i));
            assert(other.skip(i + 1) =~= tags.skip(i + 1));
            lemma_middle(
                text::terminated(tags.take(i), nul),
                tag,
                tags[i],
                nul + text::terminated(tags.skip(i + 1), nul),
            );
        }
    }
}

/// The parts of a list, taken apart before one of them.
proof fn lemma_terminated_split(parts: Seq<Seq<char>>, end: Seq<char>, i: int)
    requires
        0 <= i <= parts.len(),
    ensures
        text::terminated(parts, end) == text::terminated(parts.take(i), end) + text::terminated(
            parts.skip(i),
            end,
        ),
    decreases parts.len(),
{
    let all = text::terminated(parts, end);
    let before = text::terminated(parts.take(i), end);
    let after = text::terminated(parts.skip(i), end);
    if i == parts.len() {
        assert(parts.take(i) =~= parts);
        assert(after =~= Seq::empty());
        assert(all =~= before + after);
    } else {
        lemma_terminated_split(parts.drop_last(), end, i);
        assert(parts.drop_last().take(i) =~= parts.take(i));
        assert(parts.drop_last().skip(i) =~= parts.skip(i).drop_last());
        assert(all =~= before + after);
    }
}

/// What the digest of a card covers changes with the label of its context.
pub proof fn law_digest_covers_the_context(
    card: CardModel,
    tags: Seq<Seq<char>>,
    images: Seq<ImageModel>,
    context: Option<Seq<char>>,
    other: Option<Seq<char>>,
)
    requires
        hashed_text(card, tags, images, context) == hashed_text(card, tags, images, other),
    ensures
        hashed_label(context) == hashed_label(other),
        context is Some && other is Some ==> context == other,
{
    lemma_regroup_rest(card, tags, images, context);
    lemma_regroup_rest(card, tags, images, other);
    lemma_middle(
        hashed_head(card) + "\0tags\0"@ + text::terminated(tags, "\0"@) + "\0context\0"@,
        hashed_label(context),
        hashed_label(other),
        "\0images\0"@ + hashed_images(images),
    );
}

/// The images of a list, taken apart at one of them.
proof fn lemma_images_at(images: Seq<ImageModel>, i: int)
    requires
        0 <= i < images.len(),
    ensures
        hashed_images(images) == hashed_images(images.take(i)) + hashed_image(images[i])
            + hashed_images(images.skip(i + 1)),
    decreases images.len(),
{
    let all = hashed_images(images);
    let before = hashed_images(images.take(i));
    if i == images.len() - 1 {
        assert(images.take(i) =~= images.drop_last());
        assert(images.skip(i + 1) =~= Seq::empty());
        assert(all =~= before + hashed_image(images[i]) + hashed_images(images.skip(i + 1)));
    } else {
        let front = images.drop_last();
        lemma_images_at(front, i);
        assert(front.take(i) =~= images.take(i));
        assert(images.skip(i + 1).drop_last() =~= front.skip(i + 1));
        assert(images.skip(i + 1).last() == images.last());
        assert(all =~= before + hashed_image(images[i]) + hashed_images(images.skip(i + 1)));
    }
}

/// What the digest of a card covers changes with the content of each of its images.
pub proof fn law_digest_covers_the_images(
    card: CardModel,
    tags: Seq<Seq<char>>,
    images: Seq<ImageModel>,
    i: int,
    image: ImageModel,
    context: Option<Seq<char>>,
)
    requires
        0 <= i < images.len(),
        image.filename == images[i].filename,
        image.upload_key == images[i].upload_key,
        hashed_text(card, tags, images.update(i, image), context) == hashed_text(
            card,
            tags,
            images,
            context,
        ),
    ensures
        image.content_hash == images[i].content_hash,
{
    let nul = "\0"@;
    let old_image = images[i];
    let other = images.update(i, image);
    let start = hashed_head(card) + "\0tags\0"@ + text::terminated(tags, nul) + "\0context\0"@
        + hashed_label(context) + "\0images\0"@;
    lemma_regroup_rest(card, tags, images, context);
    lemma_regroup_rest(card, tags, other, context);
    lemma_middle(start, hashed_images(other), hashed_images(images), Seq::empty());
    lemma_images_at(images, i);
    lemma_images_at(other, i);
    assert(other.take(i) =~= images.take(i));
    assert(other.skip(i + 1) =~= images.skip(i + 1));
    lemma_middle(
        hashed_images(images.take(i)),
        hashed_image(image),
        hashed_image(old_image),
        hashed_images(images.skip(i + 1)),
    );
    let before = image.filename + nul + image.upload_key + nul;
    let after = nul + render::anki_name(image) + nul;
    assert(hashed_image(image) =~= before + image.content_hash + after);
    assert(hashed_image(old_image) =~= before + old_image.content_hash + after);
    lemma_middle(before, image.content_hash, old_image.content_hash, after);
}

} // verus!
