//! The recognized configuration options. Loading them from a file and
//! from environment overrides is I/O and lives with the caller; the
//! library consumes the plain values.

use vstd::prelude::*;

verus! {

/// Options of the indexing service.
#[derive(Clone, Debug)]
pub struct IndexerSettings {
    pub host: String,
    pub port: String,
    pub index_directory_name: String,
    pub db_file_name: String,
}

/// Options shared by every component.
#[derive(Clone, Debug)]
pub struct CommonSettings {
    pub base_dir: String,
}

/// The whole recognized configuration.
#[derive(Clone, Debug)]
pub struct AppSettings {
    pub indexer: IndexerSettings,
    pub common: CommonSettings,
}

/// A component that can be wired up from the configuration alone.
pub trait BuildableFromSettings: Sized {
    fn build_from_settings(settings: &AppSettings) -> Self;
}

} // verus!
