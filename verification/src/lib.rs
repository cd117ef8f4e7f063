//! Resolution of default applications for MIME types, in the style of the
//! freedesktop "default application" mechanism: MIME-type inference from
//! paths, URLs and extensions; layered handler precedence between user
//! overrides, wildcard rules and system defaults; desktop-entry command-line
//! construction with field-code substitution; and crash-safe persistence of
//! the user override file.

mod apps;
mod atomic_save;
mod config;
mod desktop_entry;
mod error;
mod handler;
mod mime_map;
mod mime_types;
mod path;
mod strutil;

pub use apps::regex::{ConfigHandler, HandlerRegexSet, RegexApps, RegexHandler};
pub use apps::roundtrip::{
    lemma_equal_maps_resolve_alike, lemma_round_trip_resolves_alike, lemma_save_load_round_trip,
    lemma_valid_mime_key_serializable, lemma_value_round_trip,
};
pub use apps::system::SystemApps;
pub use atomic_save::{safe_parent, AtomicFile, AtomicSaveError, Durability, OverwriteBehavior};
pub use config::{find_choice, find_terminal_entry, interpret_selection, Config};
pub use apps::user::{lemma_exact_overrides_wildcard, lemma_remove_falls_through, MimeApps};
pub use desktop_entry::{prepend_terminal, DesktopEntry, Mode};
pub use error::Error;
pub use handler::Handler;
pub use mime_map::MimeMap;
pub use mime_types::{classify_guess, from_ext, from_file, verify, Mime, MimeOrExtension};
pub use path::UserPath;
