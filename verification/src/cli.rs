//! The command surface's data model: which operation a run performs, with its
//! scoping options. Argument parsing and execution live outside the library.

use vstd::prelude::*;

verus! {

/// A parsed command line.
#[derive(Debug, Clone)]
pub struct Cli {
    pub sub: Subcommand,
}

/// The operation one run performs.
#[derive(Debug, Clone)]
pub enum Subcommand {
    /// Fetch bulk updates from the data sources; by default only entries
    /// marked as outdated are refreshed.
    Bulk {
        /// Do a full sync.
        full: bool,
        /// Only refresh this many entries.
        limit: Option<usize>,
        /// Do a partial update based on the wiki's recent changes.
        recent_changes: bool,
        /// Do a partial update based on game pages not yet cached.
        missing_pages: bool,
        /// Refresh wiki entries starting from this article title.
        wiki_from: Option<String>,
        /// Refresh storefront entries starting from this product identifier.
        steam_from: Option<u32>,
    },
    /// Fetch a named subset of games.
    Solo {
        /// Only use local data.
        local: bool,
        /// Games to update, by wiki article title.
        games: Vec<String>,
    },
    /// Validate the manifest against its schema.
    Schema,
    /// Display some statistics about the manifest.
    Stats,
    /// Find duplicate manifest entries.
    Duplicates,
    /// List games with irregular paths.
    Irregular,
    /// Try parsing a file containing wiki markup.
    Wikitext {
        /// Path to the file holding the markup.
        path: String,
    },
}

} // verus!
