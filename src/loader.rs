//! Loading of the drive database from candidate texts, with an empty
//! database where none of them parses.

use vstd::prelude::*;
use crate::drivedb::{DriveDB, Entry, EntryView};
use crate::parser::{DbError, entries_view, parse_database, parsed_db};

verus! {

/// Collects the drive database from the first text that parses.
#[derive(Debug)]
pub struct Loader {
    entries: Option<Vec<Entry>>,
}

impl Loader {
    /// The records loaded so far, if any text has parsed.
    pub closed spec fn loaded(&self) -> Option<Seq<EntryView>> {
        match self.entries {
            Some(v) => Some(entries_view(v@)),
            None => None,
        }
    }

    /// A loader that holds nothing yet.
    pub fn new() -> (r: Loader)
        ensures
            r.loaded() is None,
    {
        Loader { entries: None }
    }

    /// Parses `text` as a drive database. On success its records replace
    /// what was loaded before; on failure nothing changes.
    pub fn load_text(&mut self, text: &str) -> (r: Result<(), DbError>)
        ensures
            match parsed_db(text@) {
                Ok(es) => r is Ok && final(self).loaded() == Some(es),
                Err(e) => r == Err::<(), DbError>(e) && final(self).loaded() == old(self).loaded(),
            },
    {
        match parse_database(text) {
            Ok(v) => {
                self.entries = Some(v);
                Ok(())
            },
            Err(e) => Err(e),
        }
    }

    /// The loaded database, or an empty one where no text has parsed.
    pub fn db(self) -> (r: DriveDB)
        ensures
            match self.loaded() {
                Some(es) => entries_view(r.records()) == es,
                None => r.records().len() == 0,
            },
    {
        match self.entries {
            Some(v) => DriveDB::new(v),
            None => DriveDB::empty(),
        }
    }
}

} // verus!
