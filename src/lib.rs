//! Message catalogs keyed by language code and dotted field path.
//!
//! A locale root holds one entry per language: a file, or a directory whose
//! files and subdirectories add their names to the field path. Documents are
//! flattened so that nested tables become dotted keys.

mod catalog;
mod language;
mod loader;
mod names;
mod path;
mod tree;

pub use catalog::{Catalog, FlatCatalog};
pub use language::{Language, DEFAULT_LANGUAGE};
pub use loader::{load_locale, load_one_locale, LoadError, LocaleEntry};
pub use names::{field_of_file, file_extension, file_stem, format_of, Format};
pub use path::{find_locale, find_step, is_absolute, parent_dir, FindStep, Probe, unescape, workspace_root_of, WORKSPACE_ROOT_KEY};
pub use tree::{flatten, join_field, ValueTree};
