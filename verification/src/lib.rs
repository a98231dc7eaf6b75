//! Flashcards from Bear notes, synchronised to Anki.

pub mod anki;
pub mod anki_laws;
pub mod apply;
pub mod apply_laws;
pub mod auth_error;
pub mod bundle;
pub mod call_laws;
pub mod callout_laws;
pub mod card_laws;
pub mod card_note;
pub mod chars;
pub mod commands;
pub mod config;
pub mod content_laws;
pub mod deck_laws;
pub mod digest;
pub mod json;
pub mod lists;
pub mod menu;
pub mod messages;
pub mod note_laws;
pub mod outline;
pub mod parser;
pub mod parser_laws;
pub mod paths;
pub mod render;
pub mod render_laws;
pub mod report_laws;
pub mod run_laws;
pub mod scope;
pub mod scope_laws;
pub mod shown_laws;
pub mod state;
pub mod sync;
pub mod sync_laws;
pub mod text;
pub mod text_laws;
pub mod text_map;
