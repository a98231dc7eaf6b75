use bear_anki_sync::card_note::{
    anki_tag, build_anki_note, build_tags, card_context_label, card_preview,
    card_referenced_images, card_texts, content_hash, decorate_prompt_html, dedup_images,
    dedup_preserve_order, display_kind, escape_html_text, with_context_pill, with_sort_key_prefix,
};
use bear_anki_sync::config::Config;
use bear_anki_sync::parser::{Card, CardKind};
use bear_anki_sync::render::NoteImage;

fn make_card(sort_key: &str) -> Card {
    Card {
        kind: CardKind::Basic {
            front: "Front".into(),
            back: "Back".into(),
        },
        deck: "Deck".into(),
        fingerprint: "fingerprint".into(),
        callout_type: "card".into(),
        sort_key: sort_key.into(),
        context: vec![],
    }
}

#[test]
fn sort_key_prefix_is_hidden_html_before_the_sort_field() {
    let html = with_sort_key_prefix("<p>Front</p>\n".to_owned(), "000001");
    assert_eq!(
        html,
        "<span class=\"bear-anki-order\" style=\"display:none\">000001 </span><p>Front</p>\n"
    );
}

#[test]
fn content_hash_changes_when_source_order_changes() {
    let tags = vec!["bear-card".to_owned()];
    assert_ne!(
        content_hash(&make_card("000001"), &tags, &[], None),
        content_hash(&make_card("000002"), &tags, &[], None)
    );
}

#[test]
fn digests_tell_cards_apart_by_one_part() {
    let tags = vec!["bear-card".to_owned()];
    let card = make_card("1");
    let whole = content_hash(&card, &tags, &[], Some("A"));
    assert_eq!(whole.len(), 16);
    assert!(whole.chars().all(|c| c.is_ascii_digit() || ('a'..='f').contains(&c)));
    let mut other = card.clone();
    other.callout_type = "tip".to_owned();
    assert_ne!(content_hash(&other, &tags, &[], Some("A")), whole);
    let mut other = card.clone();
    other.deck = "Other".to_owned();
    assert_ne!(content_hash(&other, &tags, &[], Some("A")), whole);
    let mut other = card.clone();
    other.fingerprint = "other".to_owned();
    other.context = vec!["other".to_owned()];
    assert_eq!(content_hash(&other, &tags, &[], Some("A")), whole);
    assert_ne!(content_hash(&card, &tags, &[], Some("B")), whole);
    assert_ne!(content_hash(&card, &["topic".to_owned()], &[], Some("A")), whole);
    let more = vec!["first".to_owned(), "bear-card".to_owned()];
    assert_ne!(content_hash(&card, &more, &[], Some("A")), whole);
}

#[test]
fn content_hash_changes_when_tags_change() {
    let card = make_card("000001");
    assert_ne!(
        content_hash(&card, &["bear-card".to_owned()], &[], None),
        content_hash(
            &card,
            &["bear-card".to_owned(), "topic".to_owned()],
            &[],
            None
        )
    );
}

#[test]
fn content_hash_changes_when_referenced_image_changes() {
    let card = Card {
        kind: CardKind::Basic {
            front: "See ![](image.png)".into(),
            back: "Back".into(),
        },
        ..make_card("000001")
    };
    let tags = vec!["bear-card".to_owned()];
    let image_a = NoteImage::new("image.png".into(), "note:image".into(), b"a".to_vec());
    let image_b = NoteImage::new("image.png".into(), "note:image".into(), b"b".to_vec());
    let refs_a = card_referenced_images(&card, std::slice::from_ref(&image_a));
    let refs_b = card_referenced_images(&card, std::slice::from_ref(&image_b));

    assert_ne!(
        content_hash(&card, &tags, &refs_a, None),
        content_hash(&card, &tags, &refs_b, None)
    );
}

#[test]
fn context_label_uses_configured_separator() {
    let mut card = make_card("000001");
    card.context = vec!["Subtitle".into(), "Topic".into()];
    let config = Config::default();

    assert_eq!(
        card_context_label(&card, &config).as_deref(),
        Some("Subtitle / Topic")
    );
}

#[test]
fn context_can_be_disabled() {
    let mut card = make_card("000001");
    card.context = vec!["Subtitle".into()];
    let config = Config {
        include_card_context: false,
        ..Config::default()
    };

    assert_eq!(card_context_label(&card, &config), None);
}

#[test]
fn decorate_prompt_html_renders_hidden_order_then_visible_context() {
    let mut card = make_card("000001");
    card.context = vec!["Subtitle".into()];
    let html = decorate_prompt_html("<p>Front</p>\n".to_owned(), &card, &Config::default());

    assert!(html.starts_with("<span class=\"bear-anki-order\" style=\"display:none\">"));
    assert!(html.contains("class=\"bear-anki-context\""));
    assert!(html.contains(">Subtitle</div>\n<p>Front</p>"));
}

#[test]
fn content_hash_changes_when_context_changes() {
    let tags = vec!["bear-card".to_owned()];
    let card = make_card("000001");

    assert_ne!(
        content_hash(&card, &tags, &[], Some("Subtitle")),
        content_hash(&card, &tags, &[], Some("Other Subtitle"))
    );
}

#[test]
fn build_tags_deduplicates_preserving_callout_tag_first() {
    let card = make_card("000001");
    let tags = build_tags(
        &card,
        &[
            "topic".to_owned(),
            "topic".to_owned(),
            "nested/tag".to_owned(),
        ],
        &Config::default(),
    );

    assert_eq!(tags, vec!["bear-card", "topic", "nested::tag"]);
}

fn cloze_card(text: &str) -> Card {
    Card {
        kind: CardKind::Cloze { text: text.into() },
        ..make_card("1")
    }
}

#[test]
fn digests_are_those_of_the_whole_content() {
    let tags = vec!["bear-card".to_owned()];
    let hash = content_hash(&make_card("000001"), &tags, &[], None);
    assert_eq!(hash.len(), 16);
    assert_eq!(hash, "4a649c35deb4b0ff");
    let mut moved = make_card("000001");
    moved.deck = "Other".into();
    assert_ne!(hash, content_hash(&moved, &tags, &[], None));
    let mut edited = make_card("000001");
    edited.kind = CardKind::Basic {
        front: "Front".into(),
        back: "New".into(),
    };
    assert_ne!(hash, content_hash(&edited, &tags, &[], None));
}

#[test]
fn repetitions_are_removed() {
    let list = vec!["a".to_owned(), "b".to_owned(), "a".to_owned()];
    assert_eq!(dedup_preserve_order(list), vec!["a", "b"]);
    let one = NoteImage::new("a.png".into(), "k".into(), b"1".to_vec());
    let two = NoteImage::new("b.png".into(), "k".into(), b"2".to_vec());
    let kept = dedup_images(vec![&one, &two]);
    assert_eq!(kept.len(), 1);
    assert_eq!(kept[0].filename, "a.png");
}

#[test]
fn both_sides_refer_to_images() {
    let card = Card {
        kind: CardKind::Basic {
            front: "![](b.png)".into(),
            back: "![](a.png) ![](b.png)".into(),
        },
        ..make_card("1")
    };
    let images = vec![
        NoteImage::new("a.png".into(), "ka".into(), b"1".to_vec()),
        NoteImage::new("b.png".into(), "kb".into(), b"2".to_vec()),
        NoteImage::new("c.png".into(), "kc".into(), b"3".to_vec()),
    ];
    let refs = card_referenced_images(&card, &images);
    let names: Vec<&str> = refs.iter().map(|image| image.filename.as_str()).collect();
    assert_eq!(names, vec!["b.png", "a.png"]);
}

#[test]
fn levels_of_tags_are_parted_by_colons() {
    assert_eq!(anki_tag("cs/networking/tcp"), "cs::networking::tcp");
    assert_eq!(anki_tag("cs"), "cs");
}

#[test]
fn html_text_is_escaped() {
    assert_eq!(escape_html_text("a < b & c > \"d\""), "a &lt; b &amp; c &gt; \"d\"");
    assert_eq!(with_context_pill("x".to_owned(), None), "x");
    assert!(with_context_pill("x".to_owned(), Some("a<b")).ends_with(">a&lt;b</div>\nx"));
}

#[test]
fn notes_of_basic_cards_have_two_fields() {
    let card = make_card("1");
    let html = vec!["<p>Front</p>\n".to_owned(), "<p>Back</p>\n".to_owned()];
    let note = build_anki_note(&card, &html, vec!["t".to_owned()], &Config::default());
    assert_eq!(note.deck, "Deck");
    assert_eq!(note.model, "Basic");
    assert_eq!(note.tags, vec!["t"]);
    assert_eq!(
        note.fields,
        vec![
            (
                "Front".to_owned(),
                "<span class=\"bear-anki-order\" style=\"display:none\">1 </span><p>Front</p>\n"
                    .to_owned()
            ),
            ("Back".to_owned(), "<p>Back</p>\n".to_owned()),
        ]
    );
}

#[test]
fn notes_of_cloze_cards_have_one_field() {
    let card = cloze_card("The {{c1::answer}}");
    assert_eq!(card_texts(&card), vec!["The {{c1::answer}}"]);
    let note = build_anki_note(&card, &vec!["x".to_owned()], vec![], &Config::default());
    assert_eq!(note.model, "Cloze");
    assert_eq!(note.fields.len(), 1);
    assert_eq!(note.fields[0].0, "Text");
    assert!(note.fields[0].1.ends_with("</span>x"));
}

#[test]
fn previews_show_sixty_characters() {
    assert_eq!(card_preview(&make_card("1")), "Front");
    assert_eq!(card_preview(&cloze_card(&"é".repeat(60))), "é".repeat(60));
    assert_eq!(
        card_preview(&cloze_card(&"é".repeat(61))),
        format!("{}…", "é".repeat(60))
    );
    assert_eq!(display_kind(&make_card("1")), "Basic");
    assert_eq!(display_kind(&cloze_card("x")), "Cloze");
}
