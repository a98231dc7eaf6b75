//! The settings of the application.

use vstd::prelude::*;

use crate::paths;
use crate::paths::HomeNotSet;
use crate::text;
use crate::text_map;
use crate::text_map::TextMap;

verus! {

/// The settings of the application.
#[derive(Debug)]
pub struct Config {
    /// Where AnkiConnect listens, if not at the usual address.
    pub anki_url: Option<String>,
    /// How often the menu bar application synchronises. `None` and zero switch that off.
    pub sync_interval_minutes: Option<u64>,
    /// The Anki tag of each callout type.
    pub tags: TextMap<String>,
    /// Whether cards show the headings that they stand under.
    pub include_card_context: bool,
    /// What stands between those headings.
    pub card_context_separator: String,
}

/// What a `Config` says.
pub struct ConfigModel {
    pub anki_url: Option<Seq<char>>,
    pub sync_interval_minutes: Option<u64>,
    pub tags: Map<Seq<char>, Seq<char>>,
    pub include_card_context: bool,
    pub card_context_separator: Seq<char>,
}

impl View for Config {
    type V = ConfigModel;

    open spec fn view(&self) -> ConfigModel {
        ConfigModel {
            anki_url: text::opt_text(self.anki_url),
            sync_interval_minutes: self.sync_interval_minutes,
            tags: text_map::text_values(self.tags@),
            include_card_context: self.include_card_context,
            card_context_separator: self.card_context_separator@,
        }
    }
}

/// The Anki tags of the callout types where nothing is configured.
pub open spec fn usual_tags() -> Map<Seq<char>, Seq<char>> {
    Map::empty().insert("important"@, "bear-important"@).insert("note"@, "bear-note"@).insert(
        "tip"@,
        "bear-tip"@,
    ).insert("warning"@, "bear-warning"@).insert("card"@, "bear-card"@)
}

/// The settings where nothing is configured.
pub open spec fn usual_config() -> ConfigModel {
    ConfigModel {
        anki_url: None,
        sync_interval_minutes: None,
        tags: usual_tags(),
        include_card_context: true,
        card_context_separator: " / "@,
    }
}

/// The Anki tag of a callout type: as configured, else the type behind `bear-`.
pub open spec fn tag_of(tags: Map<Seq<char>, Seq<char>>, callout_type: Seq<char>) -> Seq<char> {
    if tags.contains_key(callout_type) {
        tags[callout_type]
    } else {
        "bear-"@ + callout_type
    }
}

/// Adds a callout type and its tag.
fn insert_tag(tags: &mut TextMap<String>, callout_type: &str, tag: &str)
    ensures
        text_map::text_values(final(tags)@) == text_map::text_values(old(tags)@).insert(
            callout_type@,
            tag@,
        ),
{
    tags.insert(callout_type.to_owned(), tag.to_owned());
    assert(text_map::text_values(tags@) =~= text_map::text_values(old(tags)@).insert(
        callout_type@,
        tag@,
    ));
}

/// The Anki tags of the callout types where nothing is configured.
pub fn default_tags() -> (tags: TextMap<String>)
    ensures
        text_map::text_values(tags@) == usual_tags(),
{
    let mut tags: TextMap<String> = TextMap::new();
    assert(text_map::text_values(tags@) =~= Map::<Seq<char>, Seq<char>>::empty());
    insert_tag(&mut tags, "important", "bear-important");
    insert_tag(&mut tags, "note", "bear-note");
    insert_tag(&mut tags, "tip", "bear-tip");
    insert_tag(&mut tags, "warning", "bear-warning");
    insert_tag(&mut tags, "card", "bear-card");
    tags
}

impl Default for Config {
    fn default() -> (config: Self)
        ensures
            config@ == usual_config(),
    {
        Config {
            anki_url: None,
            sync_interval_minutes: None,
            tags: default_tags(),
            include_card_context: true,
            card_context_separator: " / ".to_owned(),
        }
    }
}

/// What a file with settings holds. A setting that the file does not name has no value.
#[derive(Debug)]
pub struct ConfigFile {
    pub anki_url: Option<String>,
    pub sync_interval_minutes: Option<u64>,
    pub tags: Option<Vec<(String, String)>>,
    pub include_card_context: Option<bool>,
    pub card_context_separator: Option<String>,
}

/// The settings that a file makes. What it does not name is as if nothing were configured.
pub open spec fn settings_in(file: ConfigFile) -> ConfigModel {
    ConfigModel {
        anki_url: text::opt_text(file.anki_url),
        sync_interval_minutes: file.sync_interval_minutes,
        tags: match file.tags {
            Some(entries) => text_map::entry_texts(entries@),
            None => usual_config().tags,
        },
        include_card_context: match file.include_card_context {
            Some(include_context) => include_context,
            None => usual_config().include_card_context,
        },
        card_context_separator: match file.card_context_separator {
            Some(separator) => separator@,
            None => usual_config().card_context_separator,
        },
    }
}

/// The settings that are written to a file are those that are read from it.
pub proof fn law_saved_settings_load_back(saved: Config, file: ConfigFile, loaded: Config)
    requires
        call_ensures(Config::save, (&saved,), file),
        call_ensures(Config::load, (Some(file),), loaded),
    ensures
        loaded@ == saved@,
{
}

impl Config {
    /// The settings that a file holds. Where there is no file, nothing is configured.
    pub fn load(file: Option<ConfigFile>) -> (config: Self)
        ensures
            config@ == match file {
                Some(f) => settings_in(f),
                None => usual_config(),
            },
    {
        let usual = Config::default();
        match file {
            None => usual,
            Some(f) => Config {
                anki_url: f.anki_url,
                sync_interval_minutes: f.sync_interval_minutes,
                tags: match f.tags {
                    Some(entries) => text_map::collect_texts(&entries),
                    None => usual.tags,
                },
                include_card_context: match f.include_card_context {
                    Some(include_context) => include_context,
                    None => usual.include_card_context,
                },
                card_context_separator: match f.card_context_separator {
                    Some(separator) => separator,
                    None => usual.card_context_separator,
                },
            },
        }
    }

    /// What the file with the settings is to hold.
    pub fn save(&self) -> (file: ConfigFile)
        ensures
            settings_in(file) == self@,
    {
        ConfigFile {
            anki_url: self.anki_url.clone(),
            sync_interval_minutes: self.sync_interval_minutes,
            tags: Some(text_map::list_texts(&self.tags)),
            include_card_context: Some(self.include_card_context),
            card_context_separator: Some(self.card_context_separator.clone()),
        }
    }

    /// The Anki tag of a callout type.
    pub fn tag_for(&self, callout_type: &str) -> (tag: String)
        ensures
            tag@ == tag_of(self@.tags, callout_type@),
    {
        match self.tags.get(callout_type) {
            Some(tag) => tag.clone(),
            None => {
                let mut tag = "bear-".to_owned();
                tag.append(callout_type);
                tag
            },
        }
    }

    /// The path of the file with the settings, below the home directory.
    pub fn path(home: Option<&str>) -> (path: Result<String, HomeNotSet>)
        ensures
            match (home, path) {
                (Some(h), Ok(p)) => p@ == paths::support_path(h@, "config.toml"@),
                (None, Err(_)) => true,
                _ => false,
            },
    {
        paths::support_file(home, "config.toml")
    }
}

} // verus!
