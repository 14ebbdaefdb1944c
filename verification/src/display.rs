//! Client console state: the list of decrypted events, the error log, the
//! selection cursor, and what each key press does to them. Rendering stays
//! outside the library; this is the data it draws.

use vstd::prelude::*;
use vstd::string::*;

use crate::crypto::{crypto_error_message, decrypt_ler, decrypt_result, CryptoError, Ler};
use crate::frames::RawFrame;
use crate::text::{
    colon_hex, hex_byte_lower, push_colon_hex, push_hex_byte, push_signed_decimal, push_str,
    signed_decimal,
};

verus! {

/// Selection cursor of a list: the index of the selected row, if any.
#[derive(Debug, Clone, Copy)]
pub struct Selection {
    index: Option<usize>,
}

impl View for Selection {
    type V = Option<usize>;

    closed spec fn view(&self) -> Option<usize> {
        self.index
    }
}

impl Selection {
    /// A cursor with nothing selected.
    pub fn new() -> (r: Self)
        ensures
            r@ == None::<usize>,
    {
        Selection { index: None }
    }

    /// The selected index, if any.
    pub fn selected(&self) -> (r: Option<usize>)
        ensures
            r == self@,
    {
        self.index
    }

    /// Selects `index` (or nothing).
    pub fn select(&mut self, index: Option<usize>)
        ensures
            final(self)@ == index,
    {
        self.index = index;
    }
}

/// A decrypted event as the console shows it.
#[derive(Debug, Clone)]
pub struct EventEntry {
    pub rowid: i64,
    pub node_id: String,
    pub ler: Ler,
    pub received_at: i64,
    pub acked: bool,
    pub rssi: i32,
}

/// A display-only error entry (failed decryption and the like).
#[derive(Debug, Clone)]
pub struct ErrorEntry {
    pub message: String,
}

/// All mutable console state.
pub struct AppState {
    pub events: Vec<EventEntry>,
    pub errors: Vec<ErrorEntry>,
    pub list_state: Selection,
    pub show_errors: bool,
}

/// A key press, as the console distinguishes them.
#[derive(Debug, Clone, Copy, PartialEq, Eq, Structural)]
pub enum KeyInput {
    /// `q` or Esc.
    Quit,
    /// Down arrow or `j`.
    Down,
    /// Up arrow or `k`.
    Up,
    /// `e`.
    ToggleErrors,
    /// `a`.
    Ack,
    /// `d`.
    Delete,
    /// Any other key.
    Other,
}

/// What the console loop must do after a key press.
#[derive(Debug, Clone, Copy, PartialEq, Eq, Structural)]
pub enum ClientAction {
    /// Leave the loop.
    Quit,
    /// Keep going; nothing to write to the database.
    Continue,
    /// Record the acknowledgement of this row in the database.
    AckRow(i64),
    /// Delete this row from the database, then call `remove_selected`.
    DeleteRow(i64),
}

impl Ler {
    /// The node id as lower-case hex bytes joined by `:`.
    pub fn node_id_hex(&self) -> (r: String)
        ensures
            r@ == colon_hex(self.node_id@, false),
    {
        let mut s = String::new();
        let id: &[u8] = &self.node_id;
        push_colon_hex(&mut s, id, false);
        s
    }

    /// The event type as `0x` and two lower-case hex digits.
    pub fn event_type_hex(&self) -> (r: String)
        ensures
            r@ == "0x"@ + hex_byte_lower(self.event_type),
    {
        let mut s = String::from_str("0x");
        push_hex_byte(&mut s, self.event_type, false);
        s
    }
}

/// Number of entries not yet acknowledged.
pub open spec fn unacked(events: Seq<EventEntry>) -> nat
    decreases events.len(),
{
    if events.len() == 0 {
        0
    } else {
        unacked(events.drop_last()) + (if events.last().acked {
            0nat
        } else {
            1nat
        })
    }
}

/// `n` has the events, errors and panel flag of `o`, and selection `sel`.
pub open spec fn moved_to(o: AppState, n: AppState, sel: Option<usize>) -> bool {
    &&& n.events@ == o.events@
    &&& n.errors@ == o.errors@
    &&& n.show_errors == o.show_errors
    &&& n.list_state@ == sel
}

/// `n` is `o` unchanged.
pub open spec fn unchanged(o: AppState, n: AppState) -> bool {
    moved_to(o, n, o.list_state@)
}

/// Moving the selection down one row, clamped to the last row; on an empty
/// list nothing changes.
pub open spec fn next_step(o: AppState, n: AppState) -> bool {
    if o.events@.len() == 0 {
        unchanged(o, n)
    } else {
        moved_to(
            o,
            n,
            Some(
                match o.list_state@ {
                    Some(i) => if i + 1 < o.events@.len() {
                        (i + 1) as usize
                    } else {
                        (o.events@.len() - 1) as usize
                    },
                    None => 0usize,
                },
            ),
        )
    }
}

/// Moving the selection up one row, stopping at the first; on an empty list
/// nothing changes.
pub open spec fn prev_step(o: AppState, n: AppState) -> bool {
    if o.events@.len() == 0 {
        unchanged(o, n)
    } else {
        moved_to(
            o,
            n,
            Some(
                match o.list_state@ {
                    Some(i) => if i == 0 {
                        0usize
                    } else {
                        (i - 1) as usize
                    },
                    None => 0usize,
                },
            ),
        )
    }
}

/// The row of the selected event, if a selected event exists.
pub open spec fn selected_row(s: AppState) -> Option<i64> {
    match s.list_state@ {
        Some(i) => if i < s.events@.len() {
            Some(s.events@[i as int].rowid)
        } else {
            None
        },
        None => None,
    }
}

/// Marking the selected event as acknowledged; no change when no event is
/// selected.
pub open spec fn ack_step(o: AppState, n: AppState) -> bool {
    &&& n.errors@ == o.errors@
    &&& n.show_errors == o.show_errors
    &&& n.list_state@ == o.list_state@
    &&& match o.list_state@ {
        Some(i) => if i < o.events@.len() {
            n.events@ == o.events@.update(
                i as int,
                (EventEntry { acked: true, ..o.events@[i as int] }),
            )
        } else {
            n.events@ == o.events@
        },
        None => n.events@ == o.events@,
    }
}

/// Flipping the error panel.
pub open spec fn toggle_step(o: AppState, n: AppState) -> bool {
    &&& n.events@ == o.events@
    &&& n.errors@ == o.errors@
    &&& n.list_state@ == o.list_state@
    &&& n.show_errors == !o.show_errors
}

/// Appending an event; the first row is selected when nothing was.
pub open spec fn push_event_step(o: AppState, n: AppState, e: EventEntry) -> bool {
    &&& n.events@ == o.events@.push(e)
    &&& n.errors@ == o.errors@
    &&& n.show_errors == o.show_errors
    &&& n.list_state@ == (if o.list_state@ is None {
        Some(0usize)
    } else {
        o.list_state@
    })
}

/// Appending an error message.
pub open spec fn push_error_step(o: AppState, n: AppState, message: Seq<char>) -> bool {
    &&& n.events@ == o.events@
    &&& n.errors@.len() == o.errors@.len() + 1
    &&& n.errors@.subrange(0, o.errors@.len() as int) == o.errors@
    &&& n.errors@.last().message@ == message
    &&& n.show_errors == o.show_errors
    &&& n.list_state@ == o.list_state@
}

/// Removing the selected event and clamping the selection to the remaining
/// rows (nothing selected once the list is empty); no change when no event is
/// selected.
pub open spec fn remove_step(o: AppState, n: AppState) -> bool {
    match o.list_state@ {
        Some(i) => if i < o.events@.len() {
            &&& n.events@ == o.events@.remove(i as int)
            &&& n.errors@ == o.errors@
            &&& n.show_errors == o.show_errors
            &&& n.list_state@ == (if o.events@.len() == 1 {
                None::<usize>
            } else if i < o.events@.len() - 1 {
                Some(i)
            } else {
                Some((o.events@.len() - 2) as usize)
            })
        } else {
            unchanged(o, n)
        },
        None => unchanged(o, n),
    }
}

/// The message logged for a frame that could not be decrypted.
pub open spec fn decrypt_failure_message(rowid: i64, e: CryptoError) -> Seq<char> {
    "row "@ + signed_decimal(rowid as int) + ": decrypt failed — "@ + crypto_error_message(e)
}

impl AppState {
    /// The selection is empty or points at an existing event.
    pub open spec fn selection_valid(&self) -> bool {
        match self.list_state@ {
            Some(i) => i < self.events@.len(),
            None => true,
        }
    }

    /// Empty state: no events, no errors, nothing selected, panel hidden.
    pub fn new() -> (r: Self)
        ensures
            r.events@ == Seq::<EventEntry>::empty(),
            r.errors@ == Seq::<ErrorEntry>::empty(),
            r.list_state@ == None::<usize>,
            !r.show_errors,
            r.selection_valid(),
    {
        AppState {
            events: Vec::new(),
            errors: Vec::new(),
            list_state: Selection::new(),
            show_errors: false,
        }
    }

    /// Appends a newly decrypted event; selects the first row when nothing
    /// was selected.
    pub fn push_event(
        &mut self,
        rowid: i64,
        node_id: String,
        received_at: i64,
        rssi: i32,
        ler: Ler,
    )
        ensures
            push_event_step(
                *old(self),
                *final(self),
                (EventEntry { rowid, node_id, ler, received_at, acked: false, rssi }),
            ),
            old(self).selection_valid() ==> final(self).selection_valid(),
    {
        self.events.push(EventEntry { rowid, node_id, ler, received_at, rssi, acked: false });
        if self.list_state.selected().is_none() {
            self.list_state.select(Some(0));
        }
    }

    /// Appends a non-fatal error message.
    pub fn push_error(&mut self, message: String)
        ensures
            final(self).events@ == old(self).events@,
            final(self).errors@ == old(self).errors@.push(ErrorEntry { message }),
            final(self).show_errors == old(self).show_errors,
            final(self).list_state@ == old(self).list_state@,
            old(self).selection_valid() ==> final(self).selection_valid(),
    {
        self.errors.push(ErrorEntry { message });
    }

    /// Moves the selection down one row, stopping at the last.
    pub fn next(&mut self)
        ensures
            next_step(*old(self), *final(self)),
            old(self).selection_valid() ==> final(self).selection_valid(),
            old(self).events@.len() > 0 ==> final(self).selection_valid(),
    {
        if self.events.len() == 0 {
            return;
        }
        let i: usize = match self.list_state.selected() {
            Some(i) => if i < self.events.len() - 1 {
                i + 1
            } else {
                self.events.len() - 1
            },
            None => 0,
        };
        self.list_state.select(Some(i));
    }

    /// Moves the selection up one row, stopping at the first.
    pub fn prev(&mut self)
        ensures
            prev_step(*old(self), *final(self)),
            old(self).selection_valid() ==> final(self).selection_valid(),
    {
        if self.events.len() == 0 {
            return;
        }
        let i: usize = match self.list_state.selected() {
            Some(i) => if i == 0 {
                0
            } else {
                i - 1
            },
            None => 0,
        };
        self.list_state.select(Some(i));
    }

    /// Marks the selected event as acknowledged in the local state.
    pub fn ack_selected(&mut self)
        ensures
            ack_step(*old(self), *final(self)),
            old(self).selection_valid() ==> final(self).selection_valid(),
    {
        if let Some(i) = self.list_state.selected() {
            if i < self.events.len() {
                self.events[i].acked = true;
            }
        }
    }

    /// The row id of the selected event, if any.
    pub fn selected_rowid(&self) -> (r: Option<i64>)
        ensures
            r == selected_row(*self),
    {
        match self.list_state.selected() {
            Some(i) => if i < self.events.len() {
                Some(self.events[i].rowid)
            } else {
                None
            },
            None => None,
        }
    }

    /// Flips the error panel.
    pub fn toggle_errors(&mut self)
        ensures
            toggle_step(*old(self), *final(self)),
            old(self).selection_valid() ==> final(self).selection_valid(),
    {
        self.show_errors = !self.show_errors;
    }

    /// Number of events not yet acknowledged.
    pub fn unacked_count(&self) -> (r: usize)
        ensures
            r == unacked(self.events@),
    {
        let mut n: usize = 0;
        let mut i: usize = 0;
        while i < self.events.len()
            invariant
                0 <= i <= self.events@.len(),
                n == unacked(self.events@.subrange(0, i as int)),
                n <= i,
            decreases self.events@.len() - i,
        {
            proof {
                let pre = self.events@.subrange(0, i as int);
                let post = self.events@.subrange(0, i + 1);
                assert(post.drop_last() =~= pre);
            }
            if !self.events[i].acked {
                n = n + 1;
            }
            i = i + 1;
        }
        assert(self.events@.subrange(0, self.events@.len() as int) =~= self.events@);
        n
    }

    /// Removes the selected event from the local state and clamps the
    /// selection.
    pub fn remove_selected(&mut self)
        ensures
            remove_step(*old(self), *final(self)),
            old(self).selection_valid() ==> final(self).selection_valid(),
            selected_row(*old(self)) is Some ==> {
                let i = old(self).list_state@->0 as int;
                &&& final(self).events@.len() + 1 == old(self).events@.len()
                &&& forall|k: int| 0 <= k < i ==> final(self).events@[k] == old(self).events@[k]
                &&& forall|k: int|
                    i <= k < final(self).events@.len() ==> final(self).events@[k] == old(
                        self,
                    ).events@[k + 1]
                &&& old(self).events@[i].rowid == selected_row(*old(self))->0
            },
    {
        if let Some(i) = self.list_state.selected() {
            if i < self.events.len() {
                self.events.remove(i);
                if self.events.len() == 0 {
                    self.list_state.select(None);
                } else if i < self.events.len() {
                    self.list_state.select(Some(i));
                } else {
                    let last = self.events.len() - 1;
                    self.list_state.select(Some(last));
                }
            }
        }
        proof {
            if selected_row(*old(self)) is Some {
                lemma_remove_drops_selected_entry(*old(self), *self);
            }
        }
    }

    /// Handles a key press: navigation, the error panel and local
    /// acknowledgement happen here; the returned action says what the loop
    /// must do next.
    pub fn apply_key(&mut self, key: KeyInput) -> (r: ClientAction)
        ensures
            old(self).selection_valid() ==> final(self).selection_valid(),
            match key {
                KeyInput::Quit => r == ClientAction::Quit && unchanged(*old(self), *final(self)),
                KeyInput::Down => r == ClientAction::Continue && next_step(
                    *old(self),
                    *final(self),
                ),
                KeyInput::Up => r == ClientAction::Continue && prev_step(
                    *old(self),
                    *final(self),
                ),
                KeyInput::ToggleErrors => r == ClientAction::Continue && toggle_step(
                    *old(self),
                    *final(self),
                ),
                KeyInput::Ack => match selected_row(*old(self)) {
                    Some(row) => r == ClientAction::AckRow(row) && ack_step(
                        *old(self),
                        *final(self),
                    ),
                    None => r == ClientAction::Continue && unchanged(*old(self), *final(self)),
                },
                KeyInput::Delete => unchanged(*old(self), *final(self)) && match selected_row(
                    *old(self),
                ) {
                    Some(row) => r == ClientAction::DeleteRow(row),
                    None => r == ClientAction::Continue,
                },
                KeyInput::Other => r == ClientAction::Continue && unchanged(
                    *old(self),
                    *final(self),
                ),
            },
    {
        match key {
            KeyInput::Quit => ClientAction::Quit,
            KeyInput::Down => {
                self.next();
                ClientAction::Continue
            },
            KeyInput::Up => {
                self.prev();
                ClientAction::Continue
            },
            KeyInput::ToggleErrors => {
                self.toggle_errors();
                ClientAction::Continue
            },
            KeyInput::Ack => match self.selected_rowid() {
                Some(row) => {
                    self.ack_selected();
                    ClientAction::AckRow(row)
                },
                None => ClientAction::Continue,
            },
            KeyInput::Delete => match self.selected_rowid() {
                Some(row) => ClientAction::DeleteRow(row),
                None => ClientAction::Continue,
            },
            KeyInput::Other => ClientAction::Continue,
        }
    }

    /// Records the outcome of decrypting one polled frame: the event on
    /// success, an error message naming the row otherwise.
    pub fn ingest_frame(
        &mut self,
        rowid: i64,
        node_id: String,
        received_at: i64,
        rssi: i32,
        decrypted: Result<Ler, CryptoError>,
    )
        ensures
            old(self).selection_valid() ==> final(self).selection_valid(),
            match decrypted {
                Ok(ler) => push_event_step(
                    *old(self),
                    *final(self),
                    (EventEntry { rowid, node_id, ler, received_at, acked: false, rssi }),
                ),
                Err(e) => push_error_step(
                    *old(self),
                    *final(self),
                    decrypt_failure_message(rowid, e),
                ),
            },
    {
        match decrypted {
            Ok(ler) => self.push_event(rowid, node_id, received_at, rssi, ler),
            Err(e) => {
                let mut msg = String::from_str("row ");
                push_signed_decimal(&mut msg, rowid);
                push_str(&mut msg, ": decrypt failed — ");
                let detail = e.message();
                push_str(&mut msg, detail.as_str());
                proof {
                    assert(msg@ =~= decrypt_failure_message(rowid, e));
                }
                self.push_error(msg);
                proof {
                    assert(final(self).errors@.subrange(0, old(self).errors@.len() as int)
                        =~= old(self).errors@);
                }
            },
        }
    }
}

/// The messages of an error log.
pub open spec fn messages(errors: Seq<ErrorEntry>) -> Seq<Seq<char>> {
    errors.map_values(|e: ErrorEntry| e.message@)
}

/// The event entry a polled frame becomes when it decrypts to `ler`.
pub open spec fn entry_of(f: RawFrame, ler: Ler) -> EventEntry {
    EventEntry {
        rowid: f.rowid,
        node_id: f.node_id,
        ler,
        received_at: f.received_at,
        acked: false,
        rssi: f.rssi,
    }
}

/// The events that ingesting `frames` with `key` appends, in order: one per
/// frame that decrypts.
pub open spec fn ingested_events(frames: Seq<RawFrame>, key: Seq<u8>) -> Seq<EventEntry>
    decreases frames.len(),
{
    if frames.len() == 0 {
        seq![]
    } else {
        let f = frames.last();
        let pre = ingested_events(frames.drop_last(), key);
        match decrypt_result(f.raw_blob@, f.event_type, key) {
            Ok(l) => pre.push(entry_of(f, l)),
            Err(_) => pre,
        }
    }
}

/// The error messages that ingesting `frames` with `key` appends, in order:
/// one per frame that does not decrypt.
pub open spec fn ingested_messages(frames: Seq<RawFrame>, key: Seq<u8>) -> Seq<Seq<char>>
    decreases frames.len(),
{
    if frames.len() == 0 {
        seq![]
    } else {
        let f = frames.last();
        let pre = ingested_messages(frames.drop_last(), key);
        match decrypt_result(f.raw_blob@, f.event_type, key) {
            Ok(_) => pre,
            Err(e) => pre.push(decrypt_failure_message(f.rowid, e)),
        }
    }
}

/// How many of `frames` decrypt with `key`.
pub open spec fn decrypting_count(frames: Seq<RawFrame>, key: Seq<u8>) -> nat
    decreases frames.len(),
{
    if frames.len() == 0 {
        0
    } else {
        decrypting_count(frames.drop_last(), key) + if decrypt_result(
            frames.last().raw_blob@,
            frames.last().event_type,
            key,
        ) is Ok {
            1nat
        } else {
            0nat
        }
    }
}

/// Ingesting adds one event per frame that decrypts, whatever its event type,
/// and one error message per frame that does not. The frame at position `k`
/// that decrypts gives the event at position `decrypting_count` of the frames
/// before it; that event carries the frame's row id, node, reception time and
/// RSSI, the decrypted record, and is not acknowledged.
pub proof fn lemma_one_event_per_decrypting_frame(frames: Seq<RawFrame>, key: Seq<u8>)
    ensures
        ingested_events(frames, key).len() == decrypting_count(frames, key),
        ingested_messages(frames, key).len() + decrypting_count(frames, key) == frames.len(),
        forall|k: int|
            0 <= k < frames.len() && #[trigger] decrypt_result(
                frames[k].raw_blob@,
                frames[k].event_type,
                key,
            ) is Ok ==> {
                let e = ingested_events(frames, key)[decrypting_count(frames.take(k), key) as int];
                &&& decrypting_count(frames.take(k), key) < decrypting_count(frames, key)
                &&& e.rowid == frames[k].rowid
                &&& e.node_id == frames[k].node_id
                &&& e.received_at == frames[k].received_at
                &&& e.rssi == frames[k].rssi
                &&& e.ler == decrypt_result(frames[k].raw_blob@, frames[k].event_type, key)->Ok_0
                &&& !e.acked
            },
    decreases frames.len(),
{
    if frames.len() > 0 {
        let p = frames.drop_last();
        lemma_one_event_per_decrypting_frame(p, key);
        let n = frames.len() - 1;
        assert(frames.take(n) =~= p);
        assert forall|k: int|
            0 <= k < frames.len() && #[trigger] decrypt_result(
                frames[k].raw_blob@,
                frames[k].event_type,
                key,
            ) is Ok implies {
                let e = ingested_events(frames, key)[decrypting_count(frames.take(k), key) as int];
                &&& decrypting_count(frames.take(k), key) < decrypting_count(frames, key)
                &&& e.rowid == frames[k].rowid
                &&& e.node_id == frames[k].node_id
                &&& e.received_at == frames[k].received_at
                &&& e.rssi == frames[k].rssi
                &&& e.ler == decrypt_result(frames[k].raw_blob@, frames[k].event_type, key)->Ok_0
                &&& !e.acked
            } by {
            if k < n {
                assert(frames.take(k) =~= p.take(k));
                assert(frames[k] == p[k]);
                assert(decrypt_result(p[k].raw_blob@, p[k].event_type, key) is Ok);
            }
        }
    }
}

impl AppState {
    /// Decrypts each polled frame in order and records it: an event when it
    /// decrypts, an error message naming its row otherwise. The poll cursor
    /// moves to the row id of the last frame.
    pub fn ingest_frames(&mut self, frames: &Vec<RawFrame>, key: &[u8; 32], last_rowid: &mut i64)
        ensures
            final(self).events@ == old(self).events@ + ingested_events(frames@, key@),
            messages(final(self).errors@) == messages(old(self).errors@) + ingested_messages(
                frames@,
                key@,
            ),
            final(self).errors@.subrange(0, old(self).errors@.len() as int) == old(self).errors@,
            final(self).show_errors == old(self).show_errors,
            final(self).list_state@ == (if old(self).list_state@ is None && ingested_events(
                frames@,
                key@,
            ).len() > 0 {
                Some(0usize)
            } else {
                old(self).list_state@
            }),
            old(self).selection_valid() ==> final(self).selection_valid(),
            *final(last_rowid) == (if frames@.len() > 0 {
                frames@.last().rowid
            } else {
                *old(last_rowid)
            }),
            final(self).events@.len() == old(self).events@.len() + decrypting_count(frames@, key@),
            final(self).errors@.len() + decrypting_count(frames@, key@) == old(self).errors@.len()
                + frames@.len(),
            forall|k: int|
                0 <= k < frames@.len() && #[trigger] decrypt_result(
                    frames@[k].raw_blob@,
                    frames@[k].event_type,
                    key@,
                ) is Ok ==> {
                    let e = final(self).events@[(old(self).events@.len() + decrypting_count(
                        frames@.take(k),
                        key@,
                    )) as int];
                    &&& e.rowid == frames@[k].rowid
                    &&& e.node_id == frames@[k].node_id
                    &&& e.received_at == frames@[k].received_at
                    &&& e.rssi == frames@[k].rssi
                    &&& e.ler == decrypt_result(
                        frames@[k].raw_blob@,
                        frames@[k].event_type,
                        key@,
                    )->Ok_0
                    &&& !e.acked
                },
    {
        let ghost ev0 = self.events@;
        let ghost er0 = self.errors@;
        let ghost sel0 = self.list_state@;
        let mut i: usize = 0;
        while i < frames.len()
            invariant
                0 <= i <= frames@.len(),
                self.events@ == ev0 + ingested_events(frames@.take(i as int), key@),
                messages(self.errors@) == messages(er0) + ingested_messages(
                    frames@.take(i as int),
                    key@,
                ),
                self.errors@.len() >= er0.len(),
                self.errors@.subrange(0, er0.len() as int) == er0,
                self.show_errors == old(self).show_errors,
                self.list_state@ == (if sel0 is None && ingested_events(
                    frames@.take(i as int),
                    key@,
                ).len() > 0 {
                    Some(0usize)
                } else {
                    sel0
                }),
                (match sel0 {
                    Some(j) => j < ev0.len(),
                    None => true,
                }) ==> self.selection_valid(),
                *last_rowid == (if i > 0 {
                    frames@[i - 1].rowid
                } else {
                    *old(last_rowid)
                }),
            decreases frames@.len() - i,
        {
            let ghost pre = frames@.take(i as int);
            let ghost post = frames@.take(i + 1);
            proof {
                assert(post.drop_last() =~= pre);
                assert(post.last() == frames@[i as int]);
            }
            let ghost ev1 = self.events@;
            let ghost er1 = self.errors@;
            let frame = &frames[i];
            *last_rowid = frame.rowid;
            let decrypted = decrypt_ler(frame.raw_blob.as_slice(), frame.event_type, key);
            self.ingest_frame(
                frame.rowid,
                frame.node_id.clone(),
                frame.received_at,
                frame.rssi,
                decrypted,
            );
            proof {
                match decrypted {
                    Ok(l) => {
                        assert(self.events@ =~= ev0 + ingested_events(post, key@));
                        assert(self.errors@ == er1);
                    },
                    Err(e) => {
                        assert(messages(self.errors@) =~= messages(er1).push(
                            decrypt_failure_message(frame.rowid, e),
                        ));
                        assert(messages(self.errors@) =~= messages(er0) + ingested_messages(
                            post,
                            key@,
                        ));
                        assert(self.errors@.subrange(0, er0.len() as int) =~= er0);
                    },
                }
            }
            i = i + 1;
        }
        assert(frames@.take(frames@.len() as int) =~= frames@);
        proof {
            lemma_one_event_per_decrypting_frame(frames@, key@);
            assert(messages(self.errors@).len() == self.errors@.len());
            assert(messages(er0).len() == er0.len());
        }
    }
}

/// Moving down and then up returns to the row it started from, when the move
/// down was not stopped by the end of the list.
pub proof fn lemma_prev_undoes_next(a: AppState, b: AppState, c: AppState)
    requires
        next_step(a, b),
        prev_step(b, c),
        a.list_state@ matches Some(i) && i + 1 < a.events@.len(),
        a.events@.len() <= usize::MAX,
    ensures
        c.list_state@ == a.list_state@,
        c.events@ == a.events@,
        c.errors@ == a.errors@,
        c.show_errors == a.show_errors,
{
    let i = a.list_state@->0;
    assert(b.list_state@ == Some((i + 1) as usize));
}

/// Deleting removes exactly the selected entry: the entries before the
/// selected index stay where they were, those after it move up by one, the
/// list is one shorter, and the entry that left is the one whose row id
/// `selected_row` reported.
pub proof fn lemma_remove_drops_selected_entry(o: AppState, n: AppState)
    requires
        remove_step(o, n),
        selected_row(o) is Some,
    ensures
        n.events@.len() + 1 == o.events@.len(),
        forall|k: int| 0 <= k < o.list_state@->0 ==> n.events@[k] == o.events@[k],
        forall|k: int|
            o.list_state@->0 <= k < n.events@.len() ==> n.events@[k] == o.events@[k + 1],
        o.events@[o.list_state@->0 as int].rowid == selected_row(o)->0,
{
}

/// Acknowledging twice leaves the events as acknowledging once did.
pub proof fn lemma_ack_idempotent(a: AppState, b: AppState, c: AppState)
    requires
        ack_step(a, b),
        ack_step(b, c),
    ensures
        c.events@ == b.events@,
        c.errors@ == b.errors@,
        c.list_state@ == b.list_state@,
        c.show_errors == b.show_errors,
{
    if let Some(i) = b.list_state@ {
        if i < b.events@.len() {
            let e = b.events@[i as int];
            assert(e.acked);
            assert((EventEntry { acked: true, ..e }) == e);
            assert(c.events@ =~= b.events@);
        }
    }
}

/// Flipping the error panel twice restores the state.
pub proof fn lemma_toggle_twice_restores(a: AppState, b: AppState, c: AppState)
    requires
        toggle_step(a, b),
        toggle_step(b, c),
    ensures
        unchanged(a, c),
{
}

/// Acknowledging an unacknowledged selected event lowers the unacknowledged
/// count by exactly one.
pub proof fn lemma_ack_lowers_unacked(o: AppState, n: AppState)
    requires
        ack_step(o, n),
        selected_row(o) is Some,
        !o.events@[o.list_state@->0 as int].acked,
    ensures
        unacked(n.events@) + 1 == unacked(o.events@),
{
    let i = o.list_state@->0 as int;
    lemma_unacked_update(o.events@, i, EventEntry { acked: true, ..o.events@[i] });
}

proof fn lemma_unacked_update(s: Seq<EventEntry>, i: int, e: EventEntry)
    requires
        0 <= i < s.len(),
    ensures
        unacked(s.update(i, e)) + (if s[i].acked {
            0int
        } else {
            1int
        }) == unacked(s) + (if e.acked {
            0int
        } else {
            1int
        }),
    decreases s.len(),
{
    let t = s.update(i, e);
    if i == s.len() - 1 {
        assert(t.drop_last() =~= s.drop_last());
    } else {
        lemma_unacked_update(s.drop_last(), i, e);
        assert(t.drop_last() =~= s.drop_last().update(i, e));
    }
}

} // verus!
