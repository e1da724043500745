//! Encrypted-note relay: page cursors, the SSE stream's resume and dedup
//! rules, and the fan-out cursor of the background poller.

use vstd::prelude::*;
use crate::models::EncryptedNoteRow;
use crate::text::{parse_i64, parsed_int};

verus! {

/// Rows per `/v1/notes` page.
pub const NOTES_PAGE_SIZE: usize = 500;

/// Rows per `/v1/credentials` page.
pub const DELIVERIES_PAGE_SIZE: usize = 200;

/// Rows replayed inline on an SSE reconnect; beyond this the client is
/// told to re-page.
pub const REPLAY_LIMIT: usize = 5000;

/// Rows per fan-out query.
pub const FANOUT_BATCH: usize = 1000;

/// The cursor of the next page: the last row's cursor when the page is
/// full, none on the last page.
pub open spec fn spec_next_cursor(cursors: Seq<i64>, page_size: nat) -> Option<i64> {
    if cursors.len() == page_size && cursors.len() > 0 {
        Some(cursors.last())
    } else {
        None
    }
}

/// Paging advances: there is a next cursor exactly when the page is full
/// (and not empty), and it is the cursor of the page's last row; so when the
/// rows come in increasing cursor order, the next page starts past every
/// row served.
pub proof fn law_next_cursor_advances(cursors: Seq<i64>, page_size: nat)
    ensures
        spec_next_cursor(cursors, page_size) is Some <==> (cursors.len() == page_size && page_size > 0),
        spec_next_cursor(cursors, page_size) is Some ==> spec_next_cursor(cursors, page_size)
            == Some(cursors[cursors.len() - 1]),
        (forall|a: int, b: int| 0 <= a < b < cursors.len() ==> cursors[a] < cursors[b])
            ==> (spec_next_cursor(cursors, page_size) is Some ==> forall|i: int|
            0 <= i < cursors.len() ==> cursors[i] <= spec_next_cursor(cursors, page_size).unwrap()),
{
}

/// Cursor to pass as `since_cursor` for the next page.
pub fn next_cursor(cursors: &Vec<i64>, page_size: usize) -> (c: Option<i64>)
    ensures
        c == spec_next_cursor(cursors@, page_size as nat),
{
    if cursors.len() == page_size && cursors.len() > 0 {
        Some(cursors[cursors.len() - 1])
    } else {
        None
    }
}

/// Query of `GET /v1/notes`.
pub struct NotesQuery {
    /// Resume cursor from a previous page (exclusive).
    pub since_cursor: Option<i64>,
    /// Optional pool filter.
    pub pool: Option<String>,
}

/// Query of `GET /v1/notes/stream`.
pub struct StreamQuery {
    /// Equivalent to the Last-Event-ID header.
    pub since_cursor: Option<i64>,
}

/// The exclusive lower bound of a page: the given cursor, or 0 (before the
/// first row).
pub fn page_start(since_cursor: Option<i64>) -> (start: i64)
    ensures
        start == match since_cursor {
            Some(c) => c,
            None => 0,
        },
{
    match since_cursor {
        Some(c) => c,
        None => 0,
    }
}

/// A page of notes.
pub struct NotesPage {
    pub notes: Vec<EncryptedNoteRow>,
    /// Pass as since_cursor to fetch the next page. Absent on the last page.
    pub next_cursor: Option<i64>,
}

pub open spec fn note_ids(notes: Seq<EncryptedNoteRow>) -> Seq<i64> {
    notes.map_values(|n: EncryptedNoteRow| n.id)
}

impl NotesPage {
    pub fn from_rows(notes: Vec<EncryptedNoteRow>) -> (page: NotesPage)
        ensures
            page.notes@ == notes@,
            page.next_cursor == spec_next_cursor(note_ids(notes@), NOTES_PAGE_SIZE as nat),
    {
        let mut ids: Vec<i64> = Vec::new();
        for i in 0..notes.len()
            invariant
                ids@ == note_ids(notes@).take(i as int),
        {
            ids.push(notes[i].id);
            assert(ids@ == note_ids(notes@).take(i + 1));
        }
        assert(note_ids(notes@).take(notes@.len() as int) == note_ids(notes@));
        let next_cursor = next_cursor(&ids, NOTES_PAGE_SIZE);
        NotesPage { notes, next_cursor }
    }
}

/// A full page of notes names, as the next cursor, the id of its last
/// note; a shorter page names none.
pub proof fn law_page_cursor_is_last_note(notes: Seq<EncryptedNoteRow>)
    ensures
        notes.len() == NOTES_PAGE_SIZE ==> spec_next_cursor(note_ids(notes), NOTES_PAGE_SIZE as nat)
            == Some(notes[notes.len() - 1].id),
        notes.len() != NOTES_PAGE_SIZE ==> spec_next_cursor(note_ids(notes), NOTES_PAGE_SIZE as nat) is None,
{
    law_next_cursor_advances(note_ids(notes), NOTES_PAGE_SIZE as nat);
}

/// Where an SSE reconnect resumes: the `Last-Event-ID` header when it is a
/// number, else the `since_cursor` query parameter.
pub fn resume_cursor(last_event_id: Option<&str>, since_cursor: Option<i64>) -> (c: Option<i64>)
    ensures
        c == match last_event_id {
            Some(h) => match parsed_int(h@, true, i64::MIN as int, i64::MAX as int) {
                Some(v) => Some(v as i64),
                None => since_cursor,
            },
            None => since_cursor,
        },
{
    match last_event_id {
        Some(h) => match parse_i64(h) {
            Some(v) => Some(v),
            None => since_cursor,
        },
        None => since_cursor,
    }
}

/// What a replay of stored notes after `cursor` leaves behind: the last
/// cursor seen, and whether the client must re-page instead.
pub struct ReplayOutcome {
    pub last_seen: i64,
    pub resync: bool,
}

pub fn replay_outcome(ids: &Vec<i64>, cursor: i64) -> (r: ReplayOutcome)
    ensures
        r.last_seen == if ids@.len() > 0 {
            ids@.last()
        } else {
            cursor
        },
        r.resync == (ids@.len() == REPLAY_LIMIT),
{
    let last_seen = if ids.len() > 0 {
        ids[ids.len() - 1]
    } else {
        cursor
    };
    ReplayOutcome { last_seen, resync: ids.len() == REPLAY_LIMIT }
}

/// The live part of an SSE stream: forwards only notes newer than the last
/// one sent, so the replay/live overlap is never sent twice.
pub struct LiveCursor {
    last_seen: i64,
}

impl LiveCursor {
    pub closed spec fn spec_last_seen(&self) -> i64 {
        self.last_seen
    }

    pub fn new(last_seen: i64) -> (c: Self)
        ensures
            c.spec_last_seen() == last_seen,
    {
        LiveCursor { last_seen }
    }

    pub fn last_seen(&self) -> (v: i64)
        ensures
            v == self.spec_last_seen(),
    {
        self.last_seen
    }

    /// Whether the live note `id` is sent.
    pub fn should_send(&mut self, id: i64) -> (send: bool)
        ensures
            send == (id > old(self).spec_last_seen()),
            final(self).spec_last_seen() == if send {
                id
            } else {
                old(self).spec_last_seen()
            },
            (send, final(self).spec_last_seen()) == live_step(old(self).spec_last_seen(), id),
    {
        if id <= self.last_seen {
            return false;
        }
        self.last_seen = id;
        true
    }
}

/// One step of a live cursor that last sent `last`: whether note `id` is
/// sent, and the cursor after it.
pub open spec fn live_step(last: i64, id: i64) -> (bool, i64) {
    if id > last {
        (true, id)
    } else {
        (false, last)
    }
}

/// What a live cursor starting at `start` sends of the notes `ids` (in
/// arrival order), and where it ends: [`LiveCursor::should_send`] taken
/// over each note in turn.
pub open spec fn live_filter(start: i64, ids: Seq<i64>) -> (Seq<i64>, i64)
    decreases ids.len(),
{
    if ids.len() == 0 {
        (Seq::empty(), start)
    } else {
        let (sent, last) = live_filter(start, ids.drop_last());
        let id = ids.last();
        let (send, next) = live_step(last, id);
        (if send {
            sent.push(id)
        } else {
            sent
        }, next)
    }
}

/// A live stream never sends a note twice or out of order: what it sends
/// is strictly increasing and above the resume cursor, and it ends at the
/// newest note sent.
pub proof fn law_live_stream_increasing(start: i64, ids: Seq<i64>)
    ensures
        ({
            let (sent, last) = live_filter(start, ids);
            &&& forall|a: int, b: int| 0 <= a < b < sent.len() ==> sent[a] < sent[b]
            &&& forall|a: int| 0 <= a < sent.len() ==> start < #[trigger] sent[a] <= last
            &&& last >= start
            &&& sent.len() > 0 ==> last == sent.last()
        }),
    decreases ids.len(),
{
    if ids.len() > 0 {
        law_live_stream_increasing(start, ids.drop_last());
    }
}

/// The fan-out poller's cursor: the id of the last note broadcast.
pub struct FanoutCursor {
    last_id: i64,
}

impl FanoutCursor {
    pub closed spec fn spec_last_id(&self) -> i64 {
        self.last_id
    }

    pub fn new(last_id: i64) -> (c: Self)
        ensures
            c.spec_last_id() == last_id,
    {
        FanoutCursor { last_id }
    }

    pub fn last_id(&self) -> (v: i64)
        ensures
            v == self.spec_last_id(),
    {
        self.last_id
    }

    /// Record a batch of broadcast notes (in id order); returns whether
    /// the batch was full, i.e. whether to query again right away.
    pub fn advance(&mut self, ids: &Vec<i64>) -> (more: bool)
        ensures
            final(self).spec_last_id() == if ids@.len() > 0 {
                ids@.last()
            } else {
                old(self).spec_last_id()
            },
            more == (ids@.len() == FANOUT_BATCH),
    {
        if ids.len() > 0 {
            self.last_id = ids[ids.len() - 1];
        }
        ids.len() == FANOUT_BATCH
    }
}

} // verus!
