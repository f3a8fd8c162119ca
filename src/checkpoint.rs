//! The pipeline's durable progress record.

use vstd::prelude::*;
use crate::text::{sorted_unique, strictly_sorted, views};

verus! {

/// Progress of the pipeline: the largest page count seen, the entry
/// identifiers known, and the download-file links known.
pub struct Config {
    pub max_pages: usize,
    pub entries: Vec<String>,
    pub torrents: Vec<String>,
}

/// The page count recorded after seeing `fresh` with `max_pages` recorded.
pub open spec fn recorded_count(max_pages: nat, fresh: nat) -> nat {
    if fresh > max_pages { fresh } else { max_pages }
}

impl Config {
    /// Both link lists are sorted ascending with no duplicates.
    pub open spec fn well_formed(&self) -> bool {
        strictly_sorted(views(self.entries@)) && strictly_sorted(views(self.torrents@))
    }

    /// The empty record that a missing or unreadable checkpoint stands for.
    pub fn new() -> (r: Config)
        ensures
            r.max_pages == 0,
            r.entries@.len() == 0,
            r.torrents@.len() == 0,
            r.well_formed(),
    {
        Config { max_pages: 0, entries: Vec::new(), torrents: Vec::new() }
    }

    /// Records a freshly scraped page count. The stored count only grows:
    /// it takes `fresh` exactly when `fresh` exceeds it, and the result says
    /// whether that happened.
    pub fn record_page_count(&mut self, fresh: usize) -> (advanced: bool)
        ensures
            advanced == (fresh > old(self).max_pages),
            final(self).max_pages == if advanced { fresh } else { old(self).max_pages },
            final(self).max_pages == recorded_count(old(self).max_pages as nat, fresh as nat),
            final(self).max_pages >= old(self).max_pages,
            old(self).well_formed() ==> final(self).well_formed(),
            final(self).entries == old(self).entries,
            final(self).torrents == old(self).torrents,
    {
        if fresh > self.max_pages {
            self.max_pages = fresh;
            true
        } else {
            false
        }
    }

    /// Replaces the known entries by the distinct values of `links`, sorted.
    pub fn replace_entries(&mut self, links: Vec<String>)
        ensures
            strictly_sorted(views(final(self).entries@)),
            forall|t: Seq<char>|
                views(final(self).entries@).contains(t) <==> views(links@).contains(t),
            final(self).max_pages == old(self).max_pages,
            final(self).torrents == old(self).torrents,
            old(self).well_formed() ==> final(self).well_formed(),
    {
        self.entries = sorted_unique(links);
    }

    /// Replaces the known download-file links by the distinct values of
    /// `links`, sorted.
    pub fn replace_torrents(&mut self, links: Vec<String>)
        ensures
            strictly_sorted(views(final(self).torrents@)),
            forall|t: Seq<char>|
                views(final(self).torrents@).contains(t) <==> views(links@).contains(t),
            final(self).max_pages == old(self).max_pages,
            final(self).entries == old(self).entries,
            old(self).well_formed() ==> final(self).well_formed(),
    {
        self.torrents = sorted_unique(links);
    }
}

impl Default for Config {
    fn default() -> (r: Config)
        ensures
            r.max_pages == 0,
            r.entries@.len() == 0,
            r.torrents@.len() == 0,
    {
        Config::new()
    }
}

} // verus!
