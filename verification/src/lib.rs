//! Library for reconciling crowd-sourced wiki articles and storefront product
//! metadata into a normalized manifest of per-game save locations.
//!
//! The library is organized around three caches and a resolver:
//! - [`wiki`] owns the per-article cache, its staleness state machine and the
//!   markup flattener that turns wiki templates into path candidates;
//! - [`steam`] owns the per-product storefront cache and the state bridge that
//!   invalidates its entries after a wiki refresh;
//! - [`manifest`] merges both caches and manual overrides into the final
//!   per-game records;
//! - [`path`] and [`registry`] hold the path normalization grammars.

use vstd::prelude::*;

pub mod chars;
pub mod cli;
pub mod dedup;
pub mod manifest;
pub mod path;
pub mod registry;
pub mod steam;
pub mod strmap;
pub mod wiki;

verus! {

/// Staleness lifecycle of a cached record.
#[derive(Debug, Clone, Copy, PartialEq, Eq, Structural)]
pub enum State {
    /// This entry needs to be re-fetched from the data source.
    Outdated,
    /// This entry has been re-fetched, but is awaiting recognition by another step.
    Updated,
    /// This entry has been fully processed.
    Handled,
}

impl State {
    pub fn is_handled(&self) -> (r: bool)
        ensures
            r == (*self == State::Handled),
    {
        matches!(*self, State::Handled)
    }
}

impl Default for State {
    fn default() -> (r: Self)
        ensures
            r == State::Handled,
    {
        State::Handled
    }
}

/// Confidence grade for an extracted path; combining grades never improves one.
#[derive(Debug, Clone, Copy, PartialEq, Eq, Structural)]
pub enum Regularity {
    /// Normal and may be included in the data set.
    Regular,
    /// Somewhat irregular, but still usable for the data set.
    Semiregular,
    /// Fully irregular and should be excluded from the data set.
    Irregular,
}

impl Regularity {
    /// Position of the grade in the `Regular < Semiregular < Irregular` order.
    pub open spec fn rank(self) -> int {
        match self {
            Regularity::Regular => 0,
            Regularity::Semiregular => 1,
            Regularity::Irregular => 2,
        }
    }

    /// The worse of two grades, where `Irregular` is worst.
    pub open spec fn spec_worst(self, other: Self) -> Self {
        if other.rank() > self.rank() {
            other
        } else {
            self
        }
    }

    /// Combine two grades, keeping the worse one: the result is one of the two
    /// inputs and its rank is at least either input's rank.
    pub fn worst(&self, other: Self) -> (r: Self)
        ensures
            r == self.spec_worst(other),
            r.rank() >= self.rank(),
            r.rank() >= other.rank(),
            r == *self || r == other,
    {
        let self_rank: u8 = match *self {
            Regularity::Regular => 0,
            Regularity::Semiregular => 1,
            Regularity::Irregular => 2,
        };
        let other_rank: u8 = match other {
            Regularity::Regular => 0,
            Regularity::Semiregular => 1,
            Regularity::Irregular => 2,
        };
        if other_rank > self_rank {
            other
        } else {
            *self
        }
    }
}

impl Default for Regularity {
    fn default() -> (r: Self)
        ensures
            r == Regularity::Regular,
    {
        Regularity::Regular
    }
}

/// Failures surfaced while refreshing the caches or resolving the manifest.
///
/// Source texts (client errors, decoder messages) are carried as plain strings.
#[derive(Debug, Clone, PartialEq, Eq)]
pub enum Error {
    /// The wiki client failed to communicate with the remote source.
    WikiClient(String),
    /// A wiki response lacked an expected field; the payload names its logical path.
    WikiData(&'static str),
    /// Unable to find a page by title or identifier.
    PageMissing,
    /// Could not find product info.
    SteamProductInfo,
    /// Could not decode product info.
    SteamProductInfoDecoding(String),
    /// Schema validation failed for the manifest.
    ManifestSchema,
    /// A subprocess or local I/O step failed.
    Subprocess(String),
}

impl Error {
    /// Whether work completed before this error must be thrown away rather
    /// than persisted. Only a schema-invalid manifest is destructive; fetch
    /// failures keep the records that were already merged into the caches.
    pub fn should_discard_work(&self) -> (r: bool)
        ensures
            r == (*self == Error::ManifestSchema),
    {
        match self {
            Error::WikiClient(_)
            | Error::WikiData(_)
            | Error::PageMissing
            | Error::SteamProductInfo
            | Error::SteamProductInfoDecoding(_)
            | Error::Subprocess(_) => false,
            Error::ManifestSchema => true,
        }
    }
}

/// Window of recent changes to query: starts one minute before the stored
/// checkpoint to tolerate clock skew and missed events. Times are seconds
/// since the Unix epoch.
pub fn recent_changes_window(last_checked: i64, now: i64) -> (r: (i64, i64))
    requires
        last_checked > i64::MIN + 60,
    ensures
        r.0 == last_checked - 60,
        r.1 == now,
{
    (last_checked - 60, now)
}

} // verus!
