//! Watching a library folder: decoding the change records that the
//! operating system reports for a directory, turning them into change
//! events, and collecting the changed paths until a quiet period ends and
//! the folder is rescanned.

use vstd::prelude::*;
use crate::audio::wav::{le32, lemma_le32_reads_back};
use crate::paths::{canonical_path, canonical_spelling, is_separator};

verus! {

/// The record's action: a file was added.
pub const FILE_ACTION_ADDED: u32 = 1;
/// The record's action: a file was removed.
pub const FILE_ACTION_REMOVED: u32 = 2;
/// The record's action: a file was modified.
pub const FILE_ACTION_MODIFIED: u32 = 3;
/// The record's action: a file was renamed, this is its old name.
pub const FILE_ACTION_RENAMED_OLD_NAME: u32 = 4;
/// The record's action: a file was renamed, this is its new name.
pub const FILE_ACTION_RENAMED_NEW_NAME: u32 = 5;

/// Where a record's file name starts, counted from the record's start.
pub const NOTIFY_NAME_OFFSET: usize = 12;

/// A change to a file in a watched folder.
#[derive(Debug, Clone)]
pub enum FileChangeEvent {
    Added(String),
    Modified(String),
    Removed(String),
    /// `(old_path, new_path)`.
    Renamed(String, String),
}

impl FileChangeEvent {
    /// The event that a record with `action` for the file at `path` raises:
    /// a new name after a rename counts as an added file, an old name and an
    /// unknown action raise none.
    pub fn from_action(action: u32, path: String) -> (e: Option<FileChangeEvent>)
        ensures
            (action == FILE_ACTION_ADDED || action == FILE_ACTION_RENAMED_NEW_NAME) ==> e == Some(
                FileChangeEvent::Added(path),
            ),
            action == FILE_ACTION_MODIFIED ==> e == Some(FileChangeEvent::Modified(path)),
            action == FILE_ACTION_REMOVED ==> e == Some(FileChangeEvent::Removed(path)),
            !(action == FILE_ACTION_ADDED || action == FILE_ACTION_RENAMED_NEW_NAME || action
                == FILE_ACTION_MODIFIED || action == FILE_ACTION_REMOVED) ==> e is None,
            e == event_for(action, path),
    {
        if action == FILE_ACTION_ADDED || action == FILE_ACTION_RENAMED_NEW_NAME {
            Some(FileChangeEvent::Added(path))
        } else if action == FILE_ACTION_MODIFIED {
            Some(FileChangeEvent::Modified(path))
        } else if action == FILE_ACTION_REMOVED {
            Some(FileChangeEvent::Removed(path))
        } else {
            None
        }
    }
}

/// The event that a single record with `action` for the file at `path`
/// raises: a new name without its old name counts as an added file; an old
/// name alone and an unknown action raise none.
pub open spec fn event_for(action: u32, path: String) -> Option<FileChangeEvent> {
    if action == FILE_ACTION_ADDED || action == FILE_ACTION_RENAMED_NEW_NAME {
        Some(FileChangeEvent::Added(path))
    } else if action == FILE_ACTION_MODIFIED {
        Some(FileChangeEvent::Modified(path))
    } else if action == FILE_ACTION_REMOVED {
        Some(FileChangeEvent::Removed(path))
    } else {
        None
    }
}

/// A decoded change record with its name joined to the watched folder.
pub struct PathChange {
    pub action: u32,
    pub path: String,
}

/// The events that the records `changes` raise, in order: a record with a
/// file's old name directly followed by one with its new name is one
/// rename from the old path to the new; every other record raises what
/// `event_for` gives.
pub open spec fn change_events(changes: Seq<PathChange>) -> Seq<FileChangeEvent>
    decreases changes.len(),
{
    if changes.len() == 0 {
        Seq::empty()
    } else if changes.len() >= 2 && changes[0].action == FILE_ACTION_RENAMED_OLD_NAME
        && changes[1].action == FILE_ACTION_RENAMED_NEW_NAME {
        seq![FileChangeEvent::Renamed(changes[0].path, changes[1].path)] + change_events(
            changes.subrange(2, changes.len() as int),
        )
    } else {
        match event_for(changes[0].action, changes[0].path) {
            Some(e) => seq![e] + change_events(changes.drop_first()),
            None => change_events(changes.drop_first()),
        }
    }
}

/// The events that the records `changes` raise, a rename's two records
/// paired into one `Renamed` event.
pub fn events_from_changes(changes: Vec<PathChange>) -> (events: Vec<FileChangeEvent>)
    ensures
        events@ == change_events(changes@),
{
    let ghost all = change_events(changes@);
    let mut rest = changes;
    let mut events: Vec<FileChangeEvent> = Vec::new();
    while rest.len() > 0
        invariant
            events@ + change_events(rest@) == all,
        decreases rest.len(),
    {
        let ghost before = rest@;
        if rest.len() >= 2 && rest[0].action == FILE_ACTION_RENAMED_OLD_NAME && rest[1].action
            == FILE_ACTION_RENAMED_NEW_NAME {
            let old_name = rest.remove(0);
            let new_name = rest.remove(0);
            assert(rest@ =~= before.subrange(2, before.len() as int));
            let ghost done = events@;
            events.push(FileChangeEvent::Renamed(old_name.path, new_name.path));
            assert(events@ + change_events(rest@) =~= done + change_events(before));
        } else {
            let change = rest.remove(0);
            assert(rest@ =~= before.drop_first());
            let ghost done = events@;
            match FileChangeEvent::from_action(change.action, change.path) {
                Some(e) => {
                    events.push(e);
                    assert(events@ + change_events(rest@) =~= done + change_events(before));
                },
                None => {},
            }
        }
    }
    assert(events@ =~= events@ + change_events(rest@));
    events
}

/// The little-endian 32-bit number in `b[o..o + 4]`.
pub open spec fn le_u32_at(b: Seq<u8>, o: int) -> int {
    b[o] + 256 * b[o + 1] + 65536 * b[o + 2] + 16777216 * b[o + 3]
}

/// The UTF-16 code units of `bytes`, two little-endian bytes each; an odd
/// last byte is ignored.
pub open spec fn utf16_units(bytes: Seq<u8>) -> Seq<u16> {
    Seq::new(bytes.len() / 2, |i: int| (bytes[2 * i] + 256 * bytes[2 * i + 1]) as u16)
}

/// The name of the record at offset `o`: its length is the number at
/// `o + 8`, its bytes start at `o + 12`, right after the record's three
/// numbers.
pub open spec fn record_name_bytes(b: Seq<u8>, o: int) -> Seq<u8> {
    b.subrange(o + NOTIFY_NAME_OFFSET, o + NOTIFY_NAME_OFFSET + le_u32_at(b, o + 8))
}

/// The records in the first `n` bytes of `b` from offset `o` on, each as
/// its action and the code units of its name. A record's first number is
/// the distance to the next record; 0 ends the list, as does a next record
/// that would start at or past `n`.
pub open spec fn notify_records(b: Seq<u8>, n: int, o: int) -> Seq<(u32, Seq<u16>)>
    decreases n - o,
{
    if o >= n {
        Seq::empty()
    } else {
        let next = le_u32_at(b, o);
        let rec = (le_u32_at(b, o + 4) as u32, utf16_units(record_name_bytes(b, o)));
        if next == 0 || o + next >= n {
            seq![rec]
        } else {
            seq![rec] + notify_records(b, n, o + next)
        }
    }
}

/// Whether every record that `notify_records(b, n, o)` reads lies within
/// `b`, its name included.
pub open spec fn notify_buffer_well_formed(b: Seq<u8>, n: int, o: int) -> bool
    decreases n - o,
{
    if o >= n {
        true
    } else {
        let next = le_u32_at(b, o);
        &&& o + NOTIFY_NAME_OFFSET + le_u32_at(b, o + 8) <= b.len()
        &&& (next == 0 || o + next >= n || notify_buffer_well_formed(b, n, o + next))
    }
}

/// The UTF-16 code units `units` as bytes, each little-endian.
pub open spec fn utf16_le_bytes(units: Seq<u16>) -> Seq<u8> {
    Seq::new(
        2 * units.len(),
        |j: int|
            if j % 2 == 0 {
                (units[j / 2] % 256) as u8
            } else {
                (units[j / 2] / 256) as u8
            },
    )
}

/// The bytes of one change record as the system writes it: the distance
/// `next` to the next record, the action, the name's length in bytes, then
/// the name.
pub open spec fn record_bytes(next: nat, action: u32, units: Seq<u16>) -> Seq<u8> {
    le32(next) + le32(action as nat) + le32(2 * units.len()) + utf16_le_bytes(units)
}

/// The length of a record whose name is `units`.
pub open spec fn record_len(units: Seq<u16>) -> nat {
    12 + 2 * units.len()
}

/// The buffer the system writes for the records `recs`, back to back, each
/// pointing to the next by its length and the last by 0.
pub open spec fn records_buffer(recs: Seq<(u32, Seq<u16>)>) -> Seq<u8>
    decreases recs.len(),
{
    if recs.len() == 0 {
        Seq::empty()
    } else if recs.len() == 1 {
        record_bytes(0, recs[0].0, recs[0].1)
    } else {
        record_bytes(record_len(recs[0].1), recs[0].0, recs[0].1) + records_buffer(
            recs.drop_first(),
        )
    }
}

proof fn lemma_utf16_round_trip(units: Seq<u16>)
    ensures
        utf16_units(utf16_le_bytes(units)) == units,
{
    let b = utf16_le_bytes(units);
    assert forall|i: int| 0 <= i < units.len() implies #[trigger] utf16_units(b)[i] == units[i] by {
        let u = units[i];
        assert((2 * i) / 2 == i);
        assert((2 * i + 1) / 2 == i);
        assert((2 * i) % 2 == 0);
        assert((2 * i + 1) % 2 == 1);
        assert(b[2 * i] == (u % 256) as u8);
        assert(b[2 * i + 1] == (u / 256) as u8);
        assert((u % 256) + 256 * (u / 256) == u) by (nonlinear_arith);
    }
    assert(utf16_units(b) =~= units);
}

/// What a reader finds at the start of `record_bytes(next, action, units)`
/// followed by anything.
proof fn lemma_record_head(next: nat, action: u32, units: Seq<u16>, rest: Seq<u8>)
    requires
        next < 0x1_0000_0000,
        record_len(units) < 0x1_0000_0000,
    ensures
        ({
            let b = record_bytes(next, action, units) + rest;
            &&& record_bytes(next, action, units).len() == record_len(units)
            &&& le_u32_at(b, 0) == next
            &&& le_u32_at(b, 4) == action
            &&& le_u32_at(b, 8) == 2 * units.len()
            &&& utf16_units(record_name_bytes(b, 0)) == units
        }),
{
    let r = record_bytes(next, action, units);
    let b = r + rest;
    lemma_le32_reads_back(next);
    lemma_le32_reads_back(action as nat);
    lemma_le32_reads_back(2 * units.len());
    assert(b.subrange(0, 4) =~= le32(next));
    assert(b.subrange(4, 8) =~= le32(action as nat));
    assert(b.subrange(8, 12) =~= le32(2 * units.len()));
    assert(le_u32_at(b, 0) == le_u32_at(le32(next), 0));
    assert(le_u32_at(b, 4) == le_u32_at(le32(action as nat), 0));
    assert(le_u32_at(b, 8) == le_u32_at(le32(2 * units.len()), 0));
    assert(record_name_bytes(b, 0) =~= utf16_le_bytes(units));
    lemma_utf16_round_trip(units);
}

/// Records read from `r` are read the same from `p + r`, every offset moved
/// by the length of `p`.
proof fn lemma_records_shift(p: Seq<u8>, r: Seq<u8>, n: int, o: int)
    requires
        0 <= o,
        notify_buffer_well_formed(r, n, o),
    ensures
        notify_buffer_well_formed(p + r, p.len() + n, p.len() + o),
        notify_records(p + r, p.len() + n, p.len() + o) == notify_records(r, n, o),
    decreases n - o,
{
    let b = p + r;
    let q = p.len() + o;
    if o < n {
        assert forall|k: int| 0 <= k < 12 implies #[trigger] b[q + k] == r[o + k] by {}
        assert(le_u32_at(b, q) == le_u32_at(r, o));
        assert(le_u32_at(b, q + 4) == le_u32_at(r, o + 4));
        assert(le_u32_at(b, q + 8) == le_u32_at(r, o + 8));
        assert(record_name_bytes(b, q) =~= record_name_bytes(r, o));
        let next = le_u32_at(r, o);
        if !(next == 0 || o + next >= n) {
            lemma_records_shift(p, r, n, o + next);
            assert(p.len() + o + next == p.len() + (o + next));
        }
    }
}

/// Change records decode to what was written: a buffer of records written
/// back to back, each pointing to the next by its length and the last by 0,
/// is read as exactly those records, in order.
pub proof fn lemma_records_round_trip(recs: Seq<(u32, Seq<u16>)>)
    requires
        forall|i: int| 0 <= i < recs.len() ==> record_len(#[trigger] recs[i].1) < 0x1_0000_0000,
    ensures
        notify_buffer_well_formed(records_buffer(recs), records_buffer(recs).len() as int, 0),
        notify_records(records_buffer(recs), records_buffer(recs).len() as int, 0) == recs,
    decreases recs.len(),
{
    let buf = records_buffer(recs);
    if recs.len() == 0 {
        assert(notify_records(buf, 0, 0) =~= recs);
    } else {
        let (action, units) = recs[0];
        assert(record_len(recs[0].1) < 0x1_0000_0000);
        if recs.len() == 1 {
            lemma_record_head(0, action, units, Seq::empty());
            assert(record_bytes(0, action, units) + Seq::<u8>::empty() =~= buf);
            assert(notify_records(buf, buf.len() as int, 0) =~= recs);
        } else {
            let tail = recs.drop_first();
            assert forall|i: int| 0 <= i < tail.len() implies record_len(#[trigger] tail[i].1)
                < 0x1_0000_0000 by {
                assert(tail[i] == recs[i + 1]);
            }
            lemma_records_round_trip(tail);
            let rest = records_buffer(tail);
            let head = record_bytes(record_len(units), action, units);
            lemma_record_head(record_len(units), action, units, rest);
            assert(buf == head + rest);
            assert(rest.len() > 0) by {
                assert(tail.len() > 0);
                if tail.len() == 1 {
                    lemma_record_head(0, tail[0].0, tail[0].1, Seq::empty());
                } else {
                    lemma_record_head(record_len(tail[0].1), tail[0].0, tail[0].1, records_buffer(tail.drop_first()));
                }
            }
            lemma_records_shift(head, rest, rest.len() as int, 0);
            assert(head.len() + 0 == record_len(units));
            assert(notify_records(buf, buf.len() as int, 0) == seq![(action, units)]
                + notify_records(buf, buf.len() as int, record_len(units) as int));
            assert(recs =~= seq![(action, units)] + tail);
        }
    }
}

/// One decoded change record.
pub struct NotifyRecord {
    pub action: u32,
    /// The file name, as UTF-16 code units.
    pub name_units: Vec<u16>,
}

impl View for NotifyRecord {
    type V = (u32, Seq<u16>);

    open spec fn view(&self) -> (u32, Seq<u16>) {
        (self.action, self.name_units@)
    }
}

/// Whether `u` is the first half of a UTF-16 surrogate pair.
pub open spec fn is_high_surrogate(u: u16) -> bool {
    0xD800 <= u <= 0xDBFF
}

/// Whether `u` is the second half of a UTF-16 surrogate pair.
pub open spec fn is_low_surrogate(u: u16) -> bool {
    0xDC00 <= u <= 0xDFFF
}

/// The characters that the UTF-16 code units `units` decode to, each
/// surrogate that is not part of a pair giving U+FFFD.
pub open spec fn utf16_lossy(units: Seq<u16>) -> Seq<char>
    decreases units.len(),
{
    if units.len() == 0 {
        Seq::empty()
    } else if units.len() >= 2 && is_high_surrogate(units[0]) && is_low_surrogate(units[1]) {
        seq![
            (0x10000 + (units[0] - 0xD800) * 0x400 + (units[1] - 0xDC00)) as char,
        ] + utf16_lossy(units.subrange(2, units.len() as int))
    } else if is_high_surrogate(units[0]) || is_low_surrogate(units[0]) {
        seq!['\u{FFFD}'] + utf16_lossy(units.drop_first())
    } else {
        seq![units[0] as char] + utf16_lossy(units.drop_first())
    }
}

/// `String::from_utf16_lossy`: decodes UTF-16, each unpaired surrogate
/// becoming U+FFFD.
#[verifier::external_body]
fn string_from_utf16_lossy(units: &[u16]) -> (s: String)
    ensures
        s@ == utf16_lossy(units@),
{
    String::from_utf16_lossy(units)
}

impl NotifyRecord {
    /// The file name of the record.
    pub fn file_name(&self) -> (s: String)
        ensures
            s@ == utf16_lossy(self.name_units@),
    {
        string_from_utf16_lossy(self.name_units.as_slice())
    }
}

fn read_le_u32(b: &[u8], o: usize) -> (v: u32)
    requires
        o + 4 <= b.len(),
    ensures
        v == le_u32_at(b@, o as int),
{
    (b[o] as u32) + (b[o + 1] as u32) * 256 + (b[o + 2] as u32) * 65536 + (b[o + 3] as u32)
        * 16777216
}

fn read_utf16_units(b: &[u8], start: usize, len: usize) -> (v: Vec<u16>)
    requires
        start + len <= b.len(),
    ensures
        v@ == utf16_units(b@.subrange(start as int, start + len)),
{
    let ghost bytes = b@.subrange(start as int, start + len);
    let mut v: Vec<u16> = Vec::new();
    let mut i: usize = 0;
    while i < len / 2
        invariant
            start + len <= b.len(),
            bytes == b@.subrange(start as int, start + len),
            i <= len / 2,
            v.len() == i,
            forall|k: int| 0 <= k < i ==> v[k] == utf16_units(bytes)[k],
        decreases len / 2 - i,
    {
        let lo = b[start + 2 * i] as u16;
        let hi = b[start + 2 * i + 1] as u16;
        v.push(lo + hi * 256);
        i = i + 1;
    }
    assert(v@ =~= utf16_units(bytes));
    v
}

/// Whether the first `len` bytes of `buffer` hold change records that can
/// all be read within `buffer`.
pub fn notify_buffer_is_well_formed(buffer: &[u8], len: usize) -> (ok: bool)
    ensures
        ok == notify_buffer_well_formed(buffer@, len as int, 0),
{
    let mut offset: usize = 0;
    while offset < len
        invariant
            notify_buffer_well_formed(buffer@, len as int, 0) == notify_buffer_well_formed(
                buffer@,
                len as int,
                offset as int,
            ),
        decreases len - offset,
    {
        if buffer.len() < NOTIFY_NAME_OFFSET || offset > buffer.len() - NOTIFY_NAME_OFFSET {
            return false;
        }
        let name_len = read_le_u32(buffer, offset + 8) as usize;
        if name_len > buffer.len() - offset - NOTIFY_NAME_OFFSET {
            return false;
        }
        let next = read_le_u32(buffer, offset) as usize;
        if next == 0 || next >= len - offset {
            return true;
        }
        offset = offset + next;
    }
    true
}

/// Decodes the change records in the first `len` bytes of `buffer`.
pub fn parse_notify_buffer(buffer: &[u8], len: usize) -> (records: Vec<NotifyRecord>)
    requires
        notify_buffer_well_formed(buffer@, len as int, 0),
    ensures
        records.len() == notify_records(buffer@, len as int, 0).len(),
        forall|i: int|
            0 <= i < records.len() ==> #[trigger] records[i]@ == notify_records(
                buffer@,
                len as int,
                0,
            )[i],
{
    let ghost all = notify_records(buffer@, len as int, 0);
    let ghost mut done: Seq<(u32, Seq<u16>)> = Seq::empty();
    let mut records: Vec<NotifyRecord> = Vec::new();
    let mut offset: usize = 0;
    let mut more = len > 0;
    while more
        invariant
            more ==> offset < len && notify_buffer_well_formed(buffer@, len as int, offset as int),
            records.len() == done.len(),
            forall|i: int| 0 <= i < done.len() ==> #[trigger] records[i]@ == done[i],
            all == done + (if more {
                notify_records(buffer@, len as int, offset as int)
            } else {
                Seq::empty()
            }),
        decreases (if more { (len - offset) as int + 1 } else { 0 }),
    {
        assert(offset + NOTIFY_NAME_OFFSET + le_u32_at(buffer@, offset + 8) <= buffer@.len());
        assert(le_u32_at(buffer@, offset + 8) >= 0);
        assert(buffer@.len() == buffer.len());
        let next = read_le_u32(buffer, offset);
        let action = read_le_u32(buffer, offset + 4);
        let name_len = read_le_u32(buffer, offset + 8) as usize;
        let name_units = read_utf16_units(buffer, offset + NOTIFY_NAME_OFFSET, name_len);
        let ghost rec = (action, name_units@);
        let ghost rest = notify_records(buffer@, len as int, offset as int);
        assert(rest[0] == rec);
        records.push(NotifyRecord { action, name_units });
        proof {
            done = done.push(rec);
        }
        if next == 0 || next as usize >= len - offset {
            assert(rest =~= seq![rec]);
            more = false;
        } else {
            assert(rest =~= seq![rec] + notify_records(buffer@, len as int, offset + next));
            offset = offset + next as usize;
        }
        assert(all =~= done + (if more {
            notify_records(buffer@, len as int, offset as int)
        } else {
            Seq::empty()
        }));
    }
    assert(all =~= done);
    records
}

/// The changed paths, each in its canonical spelling, after `event`: a
/// rename forgets the old path and keeps the new one, every other event
/// keeps its path. `\` separates components when `backslash` holds.
pub open spec fn after_event(pending: Set<Seq<char>>, event: FileChangeEvent, backslash: bool) -> Set<
    Seq<char>,
> {
    match event {
        FileChangeEvent::Added(p) => pending.insert(canonical_path(p@, backslash)),
        FileChangeEvent::Modified(p) => pending.insert(canonical_path(p@, backslash)),
        FileChangeEvent::Removed(p) => pending.insert(canonical_path(p@, backslash)),
        FileChangeEvent::Renamed(old, new) => pending.remove(canonical_path(old@, backslash)).insert(
            canonical_path(new@, backslash),
        ),
    }
}

/// The paths changed since the last rescan of a watched folder, compared
/// by their components. Changes are collected while they keep coming; when
/// a quiet period passes with some pending, the folder is rescanned and the
/// set starts over.
pub struct PendingChanges {
    paths: Vec<String>,
    backslash: bool,
}

impl View for PendingChanges {
    type V = Set<Seq<char>>;

    closed spec fn view(&self) -> Set<Seq<char>> {
        self.paths.deep_view().to_set()
    }
}

impl PendingChanges {
    /// The paths are held once each.
    pub closed spec fn well_formed(&self) -> bool {
        self.paths.deep_view().no_duplicates()
    }

    /// Whether `\` separates path components on the platform the set was
    /// made on.
    pub closed spec fn backslash_separates(&self) -> bool {
        self.backslash
    }

    /// No changes pending.
    pub fn new() -> (p: PendingChanges)
        ensures
            p.well_formed(),
            p@ == Set::<Seq<char>>::empty(),
    {
        let p = PendingChanges { paths: Vec::new(), backslash: is_separator('\\') };
        assert(p.paths.deep_view().to_set() =~= Set::<Seq<char>>::empty());
        p
    }

    /// The number of pending paths.
    pub fn len(&self) -> (n: usize)
        requires
            self.well_formed(),
        ensures
            n == self@.len(),
    {
        proof {
            self.paths.deep_view().unique_seq_to_set();
        }
        self.paths.len()
    }

    /// Whether no path is pending.
    pub fn is_empty(&self) -> (b: bool)
        requires
            self.well_formed(),
        ensures
            b == (self@.len() == 0),
    {
        self.len() == 0
    }

    fn position_of(&self, path: &String) -> (r: Option<usize>)
        ensures
            match r {
                Some(i) => i < self.paths.len() && self.paths.deep_view()[i as int] == path@,
                None => !self.paths.deep_view().contains(path@),
            },
    {
        let mut i: usize = 0;
        while i < self.paths.len()
            invariant
                i <= self.paths.len(),
                forall|k: int| 0 <= k < i ==> self.paths.deep_view()[k] != path@,
            decreases self.paths.len() - i,
        {
            assert(self.paths.deep_view()[i as int] == self.paths@[i as int]@);
            if self.paths[i] == *path {
                return Some(i);
            }
            i = i + 1;
        }
        None
    }

    fn insert(&mut self, path: String)
        requires
            old(self).well_formed(),
        ensures
            final(self).well_formed(),
            final(self).backslash == old(self).backslash,
            final(self)@ == old(self)@.insert(path@),
    {
        let ghost before = self.paths.deep_view();
        match self.position_of(&path) {
            Some(i) => {
                assert(before.contains(path@));
                assert(before.to_set().insert(path@) =~= before.to_set());
            },
            None => {
                self.paths.push(path);
                let ghost after = self.paths.deep_view();
                assert(after =~= before.push(path@));
                assert(after.no_duplicates()) by {
                    assert forall|i: int, j: int|
                        0 <= i < after.len() && 0 <= j < after.len() && i != j implies after[i]
                        != after[j] by {
                        if i == before.len() as int {
                            assert(before.contains(after[j]));
                        } else if j == before.len() as int {
                            assert(before.contains(after[i]));
                        }
                    }
                }
                assert forall|x: Seq<char>| after.contains(x) <==> (before.contains(x) || x
                    == path@) by {
                    if after.contains(x) {
                        let k = choose|k: int| 0 <= k < after.len() && after[k] == x;
                        if k < before.len() {
                            assert(before[k] == x);
                        }
                    }
                    if before.contains(x) {
                        let k = choose|k: int| 0 <= k < before.len() && before[k] == x;
                        assert(after[k] == x);
                    }
                    if x == path@ {
                        assert(after[before.len() as int] == x);
                    }
                }
                assert(self@ =~= old(self)@.insert(path@));
            },
        }
    }

    fn remove(&mut self, path: &String)
        requires
            old(self).well_formed(),
        ensures
            final(self).well_formed(),
            final(self).backslash == old(self).backslash,
            final(self)@ == old(self)@.remove(path@),
    {
        let ghost before = self.paths.deep_view();
        match self.position_of(path) {
            Some(i) => {
                self.paths.remove(i);
                let ghost after = self.paths.deep_view();
                assert(after =~= before.remove(i as int));
                assert forall|x: Seq<char>| after.contains(x) <==> (before.contains(x) && x
                    != path@) by {
                    if after.contains(x) {
                        let k = choose|k: int| 0 <= k < after.len() && after[k] == x;
                        if k < i {
                            assert(before[k] == x);
                        } else {
                            assert(before[k + 1] == x);
                        }
                    }
                    if before.contains(x) && x != path@ {
                        let k = choose|k: int| 0 <= k < before.len() && before[k] == x;
                        if k < i {
                            assert(after[k] == x);
                        } else {
                            assert(after[k - 1] == x);
                        }
                    }
                }
                assert(self@ =~= old(self)@.remove(path@));
            },
            None => {
                assert(self@ =~= old(self)@.remove(path@));
            },
        }
    }

    /// Notes the change `event`.
    pub fn record(&mut self, event: FileChangeEvent)
        requires
            old(self).well_formed(),
        ensures
            final(self).well_formed(),
            final(self).backslash_separates() == old(self).backslash_separates(),
            final(self)@ == after_event(old(self)@, event, old(self).backslash_separates()),
    {
        let backslash = self.backslash;
        match event {
            FileChangeEvent::Added(p) => self.insert(canonical_spelling(p.as_str(), backslash)),
            FileChangeEvent::Modified(p) => self.insert(canonical_spelling(p.as_str(), backslash)),
            FileChangeEvent::Removed(p) => self.insert(canonical_spelling(p.as_str(), backslash)),
            FileChangeEvent::Renamed(old_path, new_path) => {
                self.remove(&canonical_spelling(old_path.as_str(), backslash));
                self.insert(canonical_spelling(new_path.as_str(), backslash));
            },
        }
    }

    /// Ends a quiet period: when paths are pending, returns how many (the
    /// folder is then rescanned) and forgets them; otherwise returns `None`
    /// and keeps waiting.
    pub fn quiet_period_elapsed(&mut self) -> (due: Option<usize>)
        requires
            old(self).well_formed(),
        ensures
            final(self).well_formed(),
            final(self).backslash_separates() == old(self).backslash_separates(),
            old(self)@.len() == 0 ==> due is None && final(self)@ == old(self)@,
            old(self)@.len() > 0 ==> due == Some(old(self)@.len() as usize) && final(self)@
                == Set::<Seq<char>>::empty(),
    {
        let n = self.len();
        if n == 0 {
            None
        } else {
            self.paths = Vec::new();
            assert(self@ =~= Set::<Seq<char>>::empty());
            Some(n)
        }
    }
}

/// A record of a file's old name directly followed by one of its new name
/// raises a single rename from the old path to the new, whatever follows.
pub proof fn lemma_rename_records_pair(
    old_name: PathChange,
    new_name: PathChange,
    rest: Seq<PathChange>,
)
    requires
        old_name.action == FILE_ACTION_RENAMED_OLD_NAME,
        new_name.action == FILE_ACTION_RENAMED_NEW_NAME,
    ensures
        change_events(seq![old_name, new_name] + rest) == seq![
            FileChangeEvent::Renamed(old_name.path, new_name.path),
        ] + change_events(rest),
{
    let all = seq![old_name, new_name] + rest;
    assert(all.subrange(2, all.len() as int) =~= rest);
}

/// The pending paths are a finite set.
pub proof fn lemma_pending_finite(pending: &PendingChanges)
    ensures
        pending@.finite(),
{
    vstd::seq_lib::seq_to_set_is_finite(pending.paths.deep_view());
}

/// A rename forgets the old path and keeps the new one; every other pending
/// path is left as it was.
pub proof fn lemma_rename_moves_path(
    pending: Set<Seq<char>>,
    old_path: String,
    new_path: String,
    other: Seq<char>,
    backslash: bool,
)
    requires
        canonical_path(old_path@, backslash) != canonical_path(new_path@, backslash),
    ensures
        after_event(pending, FileChangeEvent::Renamed(old_path, new_path), backslash).contains(
            canonical_path(new_path@, backslash),
        ),
        !after_event(pending, FileChangeEvent::Renamed(old_path, new_path), backslash).contains(
            canonical_path(old_path@, backslash),
        ),
        other != canonical_path(old_path@, backslash) && other != canonical_path(
            new_path@,
            backslash,
        ) ==> (after_event(
            pending,
            FileChangeEvent::Renamed(old_path, new_path),
            backslash,
        ).contains(other) == pending.contains(other)),
{
}

/// Noting the same change twice is the same as noting it once.
pub proof fn lemma_record_idempotent(pending: Set<Seq<char>>, event: FileChangeEvent, backslash: bool)
    ensures
        after_event(after_event(pending, event, backslash), event, backslash) == after_event(
            pending,
            event,
            backslash,
        ),
{
    assert(after_event(after_event(pending, event, backslash), event, backslash) =~= after_event(
        pending,
        event,
        backslash,
    ));
}

/// Changes to two spellings of one path are pending as one path.
pub proof fn lemma_spellings_pending_once(pending: Set<Seq<char>>, a: String, b: String, backslash: bool)
    requires
        canonical_path(a@, backslash) == canonical_path(b@, backslash),
    ensures
        after_event(
            after_event(pending, FileChangeEvent::Modified(a), backslash),
            FileChangeEvent::Modified(b),
            backslash,
        ) == after_event(pending, FileChangeEvent::Modified(a), backslash),
{
    assert(after_event(
        after_event(pending, FileChangeEvent::Modified(a), backslash),
        FileChangeEvent::Modified(b),
        backslash,
    ) =~= after_event(pending, FileChangeEvent::Modified(a), backslash));
}

/// After any change, the next quiet period rescans: the pending set is never
/// empty once a change has been noted.
pub proof fn lemma_change_makes_rescan_due(pending: Set<Seq<char>>, event: FileChangeEvent, backslash: bool)
    requires
        pending.finite(),
    ensures
        after_event(pending, event, backslash).len() > 0,
        after_event(pending, event, backslash).finite(),
{
    match event {
        FileChangeEvent::Renamed(o, n) => {
            assert(after_event(pending, event, backslash).contains(canonical_path(n@, backslash)));
        },
        FileChangeEvent::Added(p) => {
            assert(after_event(pending, event, backslash).contains(canonical_path(p@, backslash)));
        },
        FileChangeEvent::Modified(p) => {
            assert(after_event(pending, event, backslash).contains(canonical_path(p@, backslash)));
        },
        FileChangeEvent::Removed(p) => {
            assert(after_event(pending, event, backslash).contains(canonical_path(p@, backslash)));
        },
    }
}

} // verus!
