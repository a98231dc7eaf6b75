use bear_anki_sync::auth_error::is_auth_error_message;
use bear_anki_sync::config::{Config, ConfigFile};
use bear_anki_sync::paths::HomeNotSet;

#[test]
fn default_tags_cover_all_callout_types() {
    let cfg = Config::default();
    for ct in &["important", "note", "tip", "warning", "card"] {
        assert!(cfg.tags.contains_key(*ct), "missing default tag for {ct}");
    }
}

#[test]
fn tag_for_returns_configured_value() {
    let mut cfg = Config::default();
    cfg.tags.insert("important".into(), "exam-critical".into());
    assert_eq!(cfg.tag_for("important"), "exam-critical");
}

#[test]
fn tag_for_falls_back_for_unknown_type() {
    let cfg = Config::default();
    assert_eq!(cfg.tag_for("custom"), "bear-custom");
}

fn to_toml(file: ConfigFile) -> toml::Table {
    let mut table = toml::Table::new();
    if let Some(url) = file.anki_url {
        table.insert("anki_url".to_owned(), toml::Value::String(url));
    }
    if let Some(minutes) = file.sync_interval_minutes {
        let minutes = toml::Value::Integer(minutes as i64);
        table.insert("sync_interval_minutes".to_owned(), minutes);
    }
    if let Some(shown) = file.include_card_context {
        let shown = toml::Value::Boolean(shown);
        table.insert("include_card_context".to_owned(), shown);
    }
    if let Some(separator) = file.card_context_separator {
        let separator = toml::Value::String(separator);
        table.insert("card_context_separator".to_owned(), separator);
    }
    if let Some(entries) = file.tags {
        let mut tags = toml::Table::new();
        for (name, tag) in entries {
            tags.insert(name, toml::Value::String(tag));
        }
        table.insert("tags".to_owned(), toml::Value::Table(tags));
    }
    table
}

fn text_in(table: &toml::Table, name: &str) -> Option<String> {
    table.get(name).and_then(|v| v.as_str()).map(str::to_owned)
}

fn from_toml(table: &toml::Table) -> ConfigFile {
    ConfigFile {
        anki_url: text_in(table, "anki_url"),
        sync_interval_minutes: table
            .get("sync_interval_minutes")
            .and_then(|v| v.as_integer())
            .map(|n| n as u64),
        tags: table.get("tags").and_then(|v| v.as_table()).map(|tags| {
            tags.iter()
                .map(|(name, tag)| (name.clone(), tag.as_str().unwrap().to_owned()))
                .collect()
        }),
        include_card_context: table.get("include_card_context").and_then(|v| v.as_bool()),
        card_context_separator: text_in(table, "card_context_separator"),
    }
}

#[test]
fn round_trips_through_toml() {
    let mut cfg = Config {
        anki_url: Some("http://localhost:9999".into()),
        ..Config::default()
    };
    cfg.tags.insert("important".into(), "must-know".into());

    let text = toml::to_string_pretty(&to_toml(cfg.save())).unwrap();
    let table: toml::Table = toml::from_str(&text).unwrap();
    let parsed = Config::load(Some(from_toml(&table)));

    assert_eq!(parsed.anki_url.as_deref(), Some("http://localhost:9999"));
    assert_eq!(parsed.tag_for("important"), "must-know");
    assert_eq!(parsed.tag_for("note"), "bear-note");
}

#[test]
fn what_a_file_does_not_name_is_as_usual() {
    let file = ConfigFile {
        anki_url: None,
        sync_interval_minutes: Some(30),
        tags: None,
        include_card_context: Some(false),
        card_context_separator: None,
    };
    let cfg = Config::load(Some(file));
    assert_eq!(cfg.sync_interval_minutes, Some(30));
    assert!(!cfg.include_card_context);
    assert_eq!(cfg.card_context_separator, " / ");
    assert_eq!(cfg.tag_for("card"), "bear-card");
    assert_eq!(Config::load(None).tags.len(), 5);
}

#[test]
fn usual_settings() {
    let cfg = Config::default();
    assert_eq!(cfg.anki_url, None);
    assert_eq!(cfg.sync_interval_minutes, None);
    assert!(cfg.include_card_context);
    assert_eq!(cfg.card_context_separator, " / ");
    assert_eq!(cfg.tag_for("tip"), "bear-tip");
    assert_eq!(cfg.tags.len(), 5);
}

#[test]
fn the_settings_stand_below_home() {
    assert_eq!(
        Config::path(Some("/Users/me/")),
        Ok("/Users/me/Library/Application Support/bear-anki/config.toml".to_owned())
    );
    assert_eq!(Config::path(None), Err(HomeNotSet));
}

#[test]
fn sign_in_errors_are_recognised() {
    assert!(is_auth_error_message("Auth token not found"));
    assert!(is_auth_error_message("error: AUTHENTICATION_REQUIRED"));
    assert!(is_auth_error_message("The request needs authorization"));
    assert!(is_auth_error_message("HTTP 421 Misdirected Request"));
    assert!(is_auth_error_message("401 Unauthorized"));
    assert!(!is_auth_error_message("connection refused"));
    assert!(!is_auth_error_message(""));
}
