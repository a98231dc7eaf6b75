use bear_anki_sync::messages::malformed_line;
use bear_anki_sync::parser::{
    callout_title, classify_card, convert_cloze, detect_callout, fingerprint, format_order_key,
    malformed_callouts, parse_cards, strip_html_comments, BearNote, Card, CardKind, NoteBody,
};

fn cards_of(note: &BearNote) -> Vec<Card> {
    let body = NoteBody {
        deck_override: None,
        text: note.text.clone(),
    };
    parse_cards(note, &body)
}

fn make_note(title: &str, text: &str) -> BearNote {
    BearNote {
        identifier: "NOTE-1".into(),
        title: title.into(),
        text: text.into(),
        pinned: false,
        created_at: None,
        modified_at: None,
        tags: vec![],
    }
}

#[test]
fn parses_basic_card_with_title_as_front() {
    let note = make_note(
        "System Security",
        "# System Security\n\n> [!CARD] What is a buffer overflow?\n> Memory beyond buffer bounds is overwritten.",
    );
    let cards = cards_of(&note);
    assert_eq!(cards.len(), 1);
    assert_eq!(
        cards[0].kind,
        CardKind::Basic {
            front: "What is a buffer overflow?".into(),
            back: "Memory beyond buffer bounds is overwritten.".into(),
        }
    );
    assert_eq!(cards[0].deck, "System Security");
    assert_eq!(cards[0].callout_type, "card");
}

#[test]
fn strips_fold_comments_from_headings() {
    let note = make_note(
        "Systems Security",
        "# Systems Security\n\n## Access Control and Authentication<!-- {\"fold\":true} -->\n\n> [!CARD] What is auth?\n> Identity verification.",
    );
    let cards = cards_of(&note);
    assert_eq!(cards.len(), 1);
    assert_eq!(
        cards[0].deck,
        "Systems Security::1.Access Control and Authentication"
    );
}

#[test]
fn strips_html_comments_from_card_body() {
    let note = make_note(
        "Systems Security",
        "# Systems Security\n\n> [!CARD] Front\n> Bear metadata<!-- {\"preview\":\"true\"} --> stays hidden.",
    );
    let cards = cards_of(&note);
    assert_eq!(cards.len(), 1);
    assert_eq!(
        cards[0].kind,
        CardKind::Basic {
            front: "Front".into(),
            back: "Bear metadata stays hidden.".into(),
        }
    );
}

#[test]
fn strip_html_comments_handles_unclosed_comment() {
    assert_eq!(strip_html_comments("hello <!-- broken"), "hello ");
}

#[test]
fn parses_basic_card_with_separator() {
    let note = make_note(
        "System Security",
        "# System Security\n\n> [!CARD]\n> What is a buffer overflow?\n> ---\n> Memory beyond buffer bounds is overwritten.",
    );
    let cards = cards_of(&note);
    assert_eq!(cards.len(), 1);
    assert_eq!(
        cards[0].kind,
        CardKind::Basic {
            front: "What is a buffer overflow?".into(),
            back: "Memory beyond buffer bounds is overwritten.".into(),
        }
    );
}

#[test]
fn parses_cloze_card() {
    let note = make_note(
        "Biology",
        "# Biology\n\n> [!CARD]\n> The {{mitochondria}} is the powerhouse of the {{cell}}.",
    );
    let cards = cards_of(&note);
    assert_eq!(cards.len(), 1);
    assert_eq!(
        cards[0].kind,
        CardKind::Cloze {
            text: "The {{c1::mitochondria}} is the powerhouse of the {{c2::cell}}.".into(),
        }
    );
}

#[test]
fn assigns_deck_from_heading_hierarchy() {
    let note = make_note(
        "System Security",
        "# System Security\n## Chapter 1\n### Topic A\n\n> [!CARD] Question?\n> Answer.",
    );
    let cards = cards_of(&note);
    assert_eq!(cards[0].deck, "System Security::1.Chapter 1::1.Topic A");
    assert_eq!(cards[0].context, vec!["Chapter 1", "Topic A"]);
}

#[test]
fn h2_resets_h3() {
    let note = make_note(
        "Deck",
        "# Deck\n## Part 1\n### Section A\n## Part 2\n\n> [!CARD] Q?\n> A.",
    );
    let cards = cards_of(&note);
    assert_eq!(cards[0].deck, "Deck::1.Part 2");
}

#[test]
fn h1_resets_h2_and_h3() {
    let note = make_note(
        "Deck",
        "# Deck\n## Part 1\n### Section A\n# New Top\n\n> [!CARD] Q?\n> A.",
    );
    let cards = cards_of(&note);
    assert_eq!(cards[0].deck, "New Top");
}

#[test]
fn card_before_any_subheading_uses_root_deck() {
    let note = make_note("System Security", "# System Security\n\n> [!CARD] Q?\n> A.");
    let cards = cards_of(&note);
    assert_eq!(cards[0].deck, "System Security");
    assert!(cards[0].context.is_empty());
}

#[test]
fn frontmatter_deck_overrides_heading_context() {
    let note = make_note(
        "System Security",
        "---\nanki-deck: Custom::Override\n---\n# System Security\n## Chapter 1\n\n> [!CARD] Q?\n> A.",
    );
    let body = NoteBody {
        deck_override: Some("Custom::Override".into()),
        text: "# System Security\n## Chapter 1\n\n> [!CARD] Q?\n> A.".into(),
    };
    let cards = parse_cards(&note, &body);
    assert_eq!(cards[0].deck, "Custom::Override");
}

#[test]
fn skips_malformed_card_with_no_title_no_separator_no_cloze() {
    let note = make_note(
        "Deck",
        "# Deck\n\n> [!CARD]\n> Just a body line with no structure.",
    );
    let cards = cards_of(&note);
    assert_eq!(cards.len(), 0);
}

#[test]
fn parses_multiple_cards() {
    let note = make_note(
        "Deck",
        "# Deck\n\n> [!CARD] Q1?\n> A1.\n\n> [!CARD] Q2?\n> A2.",
    );
    let cards = cards_of(&note);
    assert_eq!(cards.len(), 2);
}

#[test]
fn assigns_order_keys_from_card_source_order() {
    let note = make_note(
        "Deck",
        "# Deck\n\n> [!CARD] Q1?\n> A1.\n\n> [!CARD] Q2?\n> A2.",
    );
    let cards = cards_of(&note);
    assert_eq!(cards[0].sort_key, "1");
    assert_eq!(cards[1].sort_key, "2");
}

#[test]
fn prefixes_sibling_decks_from_heading_source_order() {
    let note = make_note(
        "Deck",
        "# Deck\n## A1\n\n> [!CARD] Q1?\n> A1.\n## A2\n\n> [!CARD] Q2?\n> A2.\n## A10\n\n> [!CARD] Q3?\n> A3.",
    );
    let cards = cards_of(&note);
    assert_eq!(cards[0].deck, "Deck::1.A1");
    assert_eq!(cards[1].deck, "Deck::2.A2");
    assert_eq!(cards[2].deck, "Deck::3.A10");
}

#[test]
fn pads_sibling_decks_only_to_the_width_needed() {
    let mut text = String::from("# Deck\n");
    for n in 1..=10 {
        text.push_str(&format!("## A{n}\n\n> [!CARD] Q{n}?\n> A.\n\n"));
    }
    let note = make_note("Deck", &text);
    let cards = cards_of(&note);
    assert_eq!(cards[0].deck, "Deck::01.A1");
    assert_eq!(cards[9].deck, "Deck::10.A10");
}

#[test]
fn unused_headings_do_not_consume_deck_order_numbers() {
    let note = make_note(
        "Deck",
        "# Deck\n## A1\n\n> [!CARD] Q1?\n> A.\n\n## A2\n## A3\n## A4\n## A5\n## A6\n## A7\n## A8\n## A9\n## A10\n\n> [!CARD] Q10?\n> A.",
    );
    let cards = cards_of(&note);
    assert_eq!(cards[0].deck, "Deck::1.A1");
    assert_eq!(cards[1].deck, "Deck::2.A10");
}

#[test]
fn parent_heading_numbering_uses_descendant_cards() {
    let note = make_note(
        "Deck",
        "# Deck\n## Empty\n### Also Empty\n## Used Parent\n### Used Topic\n\n> [!CARD] Q?\n> A.",
    );
    let cards = cards_of(&note);
    assert_eq!(cards[0].deck, "Deck::1.Used Parent::1.Used Topic");
}

#[test]
fn unused_h3_headings_do_not_consume_deck_order_numbers() {
    let note = make_note(
        "Deck",
        "# Deck\n## Chapter\n### Empty\n### Topic A\n\n> [!CARD] Q1?\n> A.\n\n### Topic B\n\n> [!CARD] Q2?\n> A.",
    );
    let cards = cards_of(&note);
    assert_eq!(cards[0].deck, "Deck::1.Chapter::1.Topic A");
    assert_eq!(cards[1].deck, "Deck::1.Chapter::2.Topic B");
}

#[test]
fn pads_card_order_keys_only_to_the_width_needed() {
    let note = make_note(
        "Deck",
        "# Deck\n\n> [!CARD] Q1?\n> A.\n\n> [!CARD] Q2?\n> A.\n\n> [!CARD] Q3?\n> A.\n\n> [!CARD] Q4?\n> A.\n\n> [!CARD] Q5?\n> A.\n\n> [!CARD] Q6?\n> A.\n\n> [!CARD] Q7?\n> A.\n\n> [!CARD] Q8?\n> A.\n\n> [!CARD] Q9?\n> A.\n\n> [!CARD] Q10?\n> A.",
    );
    let cards = cards_of(&note);
    assert_eq!(cards[0].sort_key, "01");
    assert_eq!(cards[8].sort_key, "09");
    assert_eq!(cards[9].sort_key, "10");
}

#[test]
fn fingerprints_are_stable() {
    let note = make_note("Deck", "# Deck\n\n> [!CARD] Q?\n> A.");
    let cards1 = cards_of(&note);
    let cards2 = cards_of(&note);
    assert_eq!(cards1[0].fingerprint, cards2[0].fingerprint);
}

#[test]
fn fingerprints_differ_for_different_fronts() {
    let note = make_note(
        "Deck",
        "# Deck\n\n> [!CARD] Q1?\n> A.\n\n> [!CARD] Q2?\n> A.",
    );
    let cards = cards_of(&note);
    assert_ne!(cards[0].fingerprint, cards[1].fingerprint);
}

#[test]
fn converts_multiple_cloze_blanks() {
    assert_eq!(
        convert_cloze("The {{mitochondria}} is the {{powerhouse}}."),
        "The {{c1::mitochondria}} is the {{c2::powerhouse}}."
    );
}

#[test]
fn convert_cloze_handles_unclosed_brace() {
    // Unclosed {{ should be passed through without panic
    let result = convert_cloze("foo {{ bar");
    assert!(result.contains("bar"));
}

#[test]
fn parses_tip_callout() {
    let note = make_note(
        "Deck",
        "# Deck\n\n> [!TIP] Remember this trick.\n> Use shortcut Cmd+K.",
    );
    let cards = cards_of(&note);
    assert_eq!(cards.len(), 1);
    assert_eq!(cards[0].callout_type, "tip");
    assert_eq!(
        cards[0].kind,
        CardKind::Basic {
            front: "Remember this trick.".into(),
            back: "Use shortcut Cmd+K.".into(),
        }
    );
}

#[test]
fn parses_note_callout() {
    let note = make_note(
        "Deck",
        "# Deck\n\n> [!NOTE] What is idempotency?\n> An operation that produces the same result when applied multiple times.",
    );
    let cards = cards_of(&note);
    assert_eq!(cards.len(), 1);
    assert_eq!(cards[0].callout_type, "note");
}

#[test]
fn parses_important_callout() {
    let note = make_note(
        "Deck",
        "# Deck\n\n> [!IMPORTANT] Never store secrets in plain text.\n> Use a secrets manager or OS keychain.",
    );
    let cards = cards_of(&note);
    assert_eq!(cards.len(), 1);
    assert_eq!(cards[0].callout_type, "important");
}

#[test]
fn parses_warning_callout() {
    let note = make_note(
        "Deck",
        "# Deck\n\n> [!WARNING] Never use textbook RSA.\n> It is malleable and provides no semantic security.",
    );
    let cards = cards_of(&note);
    assert_eq!(cards.len(), 1);
    assert_eq!(cards[0].callout_type, "warning");
}

#[test]
fn parses_mixed_callout_types_in_one_note() {
    let note = make_note(
        "Deck",
        "# Deck\n\n> [!CARD] Q?\n> A.\n\n> [!TIP] T?\n> T.\n\n> [!IMPORTANT] I?\n> I.\n\n> [!WARNING] W?\n> W.",
    );
    let cards = cards_of(&note);
    assert_eq!(cards.len(), 4);
    assert_eq!(cards[0].callout_type, "card");
    assert_eq!(cards[1].callout_type, "tip");
    assert_eq!(cards[2].callout_type, "important");
    assert_eq!(cards[3].callout_type, "warning");
}

#[test]
fn comments_are_removed_one_by_one() {
    assert_eq!(strip_html_comments("a<!-- x -->b<!-- y -->c"), "abc");
    assert_eq!(strip_html_comments("no comment"), "no comment");
    assert_eq!(strip_html_comments("<!---->"), "");
}

#[test]
fn blanks_are_numbered_in_order() {
    assert_eq!(convert_cloze("{{a}}{{b}}{{c}}"), "{{c1::a}}{{c2::b}}{{c3::c}}");
    assert_eq!(convert_cloze("no blanks"), "no blanks");
    assert_eq!(convert_cloze("foo {{ bar"), "foo {{ bar");
    assert_eq!(convert_cloze("{{}}"), "{{c1::}}");
}

#[test]
fn callouts_are_recognised_by_their_mark() {
    assert_eq!(
        detect_callout("> [!TIP] A title"),
        Some(("tip".to_owned(), " A title".to_owned()))
    );
    assert_eq!(detect_callout("> [!Tip] A title"), None);
    assert_eq!(detect_callout("> [!QUOTE] A title"), None);
    assert_eq!(detect_callout("[!TIP] A title"), None);
}

#[test]
fn a_title_of_white_space_is_none() {
    assert_eq!(callout_title("   "), None);
    assert_eq!(callout_title(" A title "), Some("A title".to_owned()));
}

#[test]
fn fingerprints_are_digests_of_the_front() {
    assert_eq!(fingerprint("abc"), "ba7816bf8f01cfea");
    let note = make_note("Deck", "# Deck\n\n> [!CARD] abc\n> A.");
    assert_eq!(cards_of(&note)[0].fingerprint, "ba7816bf8f01cfea");
}

#[test]
fn a_new_back_leaves_the_identity() {
    let before = make_note("Deck", "# Deck\n\n> [!CARD] Q?\n> One.");
    let after = make_note("Deck", "# Deck\n\n> [!CARD] Q?\n> Two.");
    assert_eq!(
        cards_of(&before)[0].fingerprint,
        cards_of(&after)[0].fingerprint
    );
    assert_ne!(cards_of(&before)[0].kind, cards_of(&after)[0].kind);
}

#[test]
fn cloze_takes_priority_over_the_title() {
    let note = make_note("Deck", "# Deck\n\n> [!CARD] A title\n> The {{answer}}.");
    let cards = cards_of(&note);
    assert_eq!(
        cards[0].kind,
        CardKind::Cloze {
            text: "The {{c1::answer}}.".into()
        }
    );
    assert_eq!(cards[0].fingerprint, fingerprint("The {{answer}}."));
}

#[test]
fn order_keys_are_padded() {
    assert_eq!(format_order_key(7, 3), "007");
    assert_eq!(format_order_key(1234, 3), "1234");
}

#[test]
fn malformed_callouts_are_counted() {
    let note = make_note("Deck", "# Deck\n\n> [!CARD]\n> Just a body.\n\n> [!CARD] Q?\n> A.");
    let body = NoteBody {
        deck_override: None,
        text: note.text.clone(),
    };
    assert_eq!(malformed_callouts(&note, &body), 1);
    assert_eq!(
        malformed_line(&note.title, &note.identifier),
        "bear-anki: skipping malformed callout in \"Deck\" (NOTE-1)"
    );
    assert_eq!(cards_of(&note).len(), 1);
}

#[test]
fn malformed_callouts_change_nothing_else() {
    let with = make_note(
        "Deck",
        "# Deck\n## A\n> [!CARD]\n> Just a body.\n## B\n> [!CARD] Q?\n> A.\n\n> [!TIP]",
    );
    let without = make_note("Deck", "# Deck\n## A\n\n\n## B\n> [!CARD] Q?\n> A.\n\n");
    assert_eq!(cards_of(&with), cards_of(&without));
    assert_eq!(cards_of(&with).len(), 1);
    assert_eq!(cards_of(&with)[0].deck, "Deck::1.B");
    assert_eq!(cards_of(&with)[0].sort_key, "1");
}

#[test]
fn front_matter_changes_the_deck_alone() {
    let note = make_note("Deck", "# Deck\n## A\n> [!CARD] Q?\n> A.");
    let usual = cards_of(&note);
    let body = NoteBody {
        deck_override: Some("Inbox".to_owned()),
        text: note.text.clone(),
    };
    let cards = parse_cards(&note, &body);
    assert_eq!(cards.len(), 1);
    let mut expected = usual[0].clone();
    expected.deck = "Inbox".to_owned();
    assert_eq!(cards[0], expected);
}

#[test]
fn a_card_needs_a_front() {
    let none = classify_card(
        None,
        vec!["Body.".to_owned()],
        "Deck".to_owned(),
        "card".to_owned(),
        "1".to_owned(),
        vec![],
    );
    assert_eq!(none, None);
}
