//! Auditor disclosure reports: the paging of the note scan and the report
//! header built from the fetched root. (Trial decryption with the viewing
//! key is pending the note format, so reports carry no entries yet.)

use vstd::prelude::*;

verus! {

/// Version of the report format.
pub const REPORT_VERSION: u32 = 1;

/// A disclosure report, without its (still empty) list of entries.
pub struct Report {
    pub version: u32,
    pub pool: String,
    pub generated_at: String,
    pub tree_root: String,
    pub anchored_ledger: i64,
    pub total_notes_scanned: usize,
}

/// Build a report from the fetched root answer: a missing `root` reads as
/// the empty string and a missing `anchored_ledger` as 0.
pub fn build_report(
    pool: String,
    generated_at: String,
    tree_root: Option<String>,
    anchored_ledger: Option<i64>,
    notes_scanned: usize,
) -> (r: Report)
    ensures
        r.version == REPORT_VERSION,
        r.pool@ == pool@,
        r.generated_at@ == generated_at@,
        r.tree_root@ == match tree_root {
            Some(t) => t@,
            None => Seq::<char>::empty(),
        },
        r.anchored_ledger == match anchored_ledger {
            Some(l) => l,
            None => 0,
        },
        r.total_notes_scanned == notes_scanned,
{
    Report {
        version: REPORT_VERSION,
        pool,
        generated_at,
        tree_root: match tree_root {
            Some(t) => t,
            None => String::new(),
        },
        anchored_ledger: match anchored_ledger {
            Some(l) => l,
            None => 0,
        },
        total_notes_scanned: notes_scanned,
    }
}

/// Paging through every note of a pool: follow `next_cursor` until a page
/// comes without one.
pub struct NoteScan {
    cursor: Option<i64>,
    done: bool,
}

impl NoteScan {
    pub closed spec fn spec_cursor(&self) -> Option<i64> {
        self.cursor
    }

    pub closed spec fn spec_done(&self) -> bool {
        self.done
    }

    pub fn new() -> (s: Self)
        ensures
            s.spec_cursor() is None,
            !s.spec_done(),
    {
        NoteScan { cursor: None, done: false }
    }

    /// The `since_cursor` of the next request (`None` for the first).
    pub fn cursor(&self) -> (c: Option<i64>)
        ensures
            c == self.spec_cursor(),
    {
        self.cursor
    }

    pub fn is_done(&self) -> (d: bool)
        ensures
            d == self.spec_done(),
    {
        self.done
    }

    /// Record a page's `next_cursor`; the scan ends on a page without one.
    pub fn record_page(&mut self, next_cursor: Option<i64>)
        requires
            !old(self).spec_done(),
        ensures
            final(self).spec_done() == (next_cursor is None),
            next_cursor is Some ==> final(self).spec_cursor() == next_cursor,
            next_cursor is None ==> final(self).spec_cursor() == old(self).spec_cursor(),
    {
        match next_cursor {
            Some(c) => self.cursor = Some(c),
            None => self.done = true,
        }
    }
}

} // verus!
