//! Hardware-facing values that the rest of the system computes with:
//! wall-clock timestamps, memory figures, line-editing history and disk
//! errors. Reading the clock, the keyboard and the disk happens outside
//! the library; what is read arrives here as plain values.

use vstd::prelude::*;

use crate::text::{ascii_bytes, bytes_eq, dec, lit, push_all, push_dec, push_dec_padded, to_vec, zero_pad};

verus! {

/// Wall-clock timestamp.
#[derive(Debug, Clone, Copy, PartialEq, Eq, Structural)]
pub struct WallTime {
    pub year: u16,
    pub month: u8,
    pub day: u8,
    pub hour: u8,
    pub minute: u8,
    pub second: u8,
}

/// `n` in decimal, zero-padded to `w` digits.
pub open spec fn padded(n: nat, w: nat) -> Seq<u8> {
    zero_pad(dec(n), w)
}

/// ISO 8601 text of a timestamp: `YYYY-MM-DDTHH:MM:SSZ`.
pub open spec fn spec_iso8601(t: WallTime) -> Seq<u8> {
    padded(t.year as nat, 4) + seq![45u8] + padded(t.month as nat, 2) + seq![45u8] + padded(
        t.day as nat,
        2,
    ) + seq![84u8] + padded(t.hour as nat, 2) + seq![58u8] + padded(t.minute as nat, 2) + seq![
        58u8,
    ] + padded(t.second as nat, 2) + seq![90u8]
}

/// Session-id text of a timestamp: `YYYYMMDD_HHMMSS`.
pub open spec fn spec_session_suffix(t: WallTime) -> Seq<u8> {
    padded(t.year as nat, 4) + padded(t.month as nat, 2) + padded(t.day as nat, 2) + seq![95u8]
        + padded(t.hour as nat, 2) + padded(t.minute as nat, 2) + padded(t.second as nat, 2)
}

impl WallTime {
    /// Formats as ISO 8601, e.g. `2026-04-09T14:22:00Z`.
    pub fn iso8601(&self) -> (r: Vec<u8>)
        ensures
            r@ == spec_iso8601(*self),
    {
        let mut out: Vec<u8> = Vec::new();
        push_dec_padded(&mut out, self.year as u64, 4);
        out.push(45);
        push_dec_padded(&mut out, self.month as u64, 2);
        out.push(45);
        push_dec_padded(&mut out, self.day as u64, 2);
        out.push(84);
        push_dec_padded(&mut out, self.hour as u64, 2);
        out.push(58);
        push_dec_padded(&mut out, self.minute as u64, 2);
        out.push(58);
        push_dec_padded(&mut out, self.second as u64, 2);
        out.push(90);
        assert(out@ =~= spec_iso8601(*self));
        out
    }

    /// Formats for session ids, e.g. `20260409_142200`.
    pub fn session_id_suffix(&self) -> (r: Vec<u8>)
        ensures
            r@ == spec_session_suffix(*self),
    {
        let mut out: Vec<u8> = Vec::new();
        push_dec_padded(&mut out, self.year as u64, 4);
        push_dec_padded(&mut out, self.month as u64, 2);
        push_dec_padded(&mut out, self.day as u64, 2);
        out.push(95);
        push_dec_padded(&mut out, self.hour as u64, 2);
        push_dec_padded(&mut out, self.minute as u64, 2);
        push_dec_padded(&mut out, self.second as u64, 2);
        assert(out@ =~= spec_session_suffix(*self));
        out
    }
}

/// RAM figures, in KiB.
#[derive(Debug, Clone, Copy, PartialEq, Eq, Structural)]
pub struct MemInfo {
    pub free_kb: u64,
    pub total_kb: u64,
}

/// Line-editing history: the most recent distinct lines, oldest first, and
/// a cursor for walking back and forth through them.
pub struct InputHistory {
    entries: Vec<Vec<u8>>,
    max_entries: usize,
    cursor: usize,
}

/// Mathematical model of an [`InputHistory`].
#[verifier::ext_equal]
pub struct HistoryModel {
    pub entries: Seq<Seq<u8>>,
    pub max_entries: nat,
    pub cursor: nat,
}

/// The history after entering `line`: empty lines and a repeat of the
/// last line are not stored; when full, the oldest line is dropped. The
/// cursor moves past the newest line.
pub open spec fn spec_push(h: HistoryModel, line: Seq<u8>) -> HistoryModel {
    if line.len() == 0 {
        h
    } else if h.entries.len() > 0 && h.entries.last() == line {
        HistoryModel { cursor: h.entries.len(), ..h }
    } else {
        let kept = if h.entries.len() >= h.max_entries {
            h.entries.drop_first()
        } else {
            h.entries
        };
        HistoryModel { entries: kept.push(line), max_entries: h.max_entries, cursor: kept.len() + 1 }
    }
}

/// The line before the cursor, and the moved cursor.
pub open spec fn spec_prev(h: HistoryModel) -> (HistoryModel, Option<Seq<u8>>) {
    if h.entries.len() == 0 || h.cursor == 0 {
        (h, None)
    } else {
        let c = (h.cursor - 1) as nat;
        (HistoryModel { cursor: c, ..h }, Some(h.entries[c as int]))
    }
}

/// The line after the cursor, and the moved cursor.
pub open spec fn spec_next(h: HistoryModel) -> (HistoryModel, Option<Seq<u8>>) {
    if h.cursor >= h.entries.len() {
        (h, None)
    } else {
        let c = h.cursor + 1;
        (
            HistoryModel { cursor: c, ..h },
            if c >= h.entries.len() {
                None
            } else {
                Some(h.entries[c as int])
            },
        )
    }
}

/// The stored lines never outnumber the limit, none is empty, no line
/// repeats the one before it, and the cursor stays within them.
pub open spec fn history_wf(h: HistoryModel) -> bool {
    &&& h.max_entries > 0 ==> h.entries.len() <= h.max_entries
    &&& h.max_entries == 0 ==> h.entries.len() == 0
    &&& h.cursor <= h.entries.len()
    &&& forall|i: int| 0 <= i < h.entries.len() ==> #[trigger] h.entries[i].len() > 0
    &&& forall|i: int| 0 < i < h.entries.len() ==> #[trigger] h.entries[i] != h.entries[i - 1]
}

impl InputHistory {
    pub closed spec fn view(&self) -> HistoryModel {
        HistoryModel {
            entries: self.entries@.map_values(|e: Vec<u8>| e@),
            max_entries: self.max_entries as nat,
            cursor: self.cursor as nat,
        }
    }

    /// An empty history keeping at most `max_entries` lines.
    pub fn new(max_entries: usize) -> (r: Self)
        ensures
            r@ == (HistoryModel { entries: seq![], max_entries: max_entries as nat, cursor: 0 }),
            history_wf(r@),
    {
        let r = InputHistory { entries: Vec::new(), max_entries, cursor: 0 };
        assert(r@.entries =~= seq![]);
        r
    }

    /// Records an entered line.
    pub fn push(&mut self, line: &[u8])
        requires
            history_wf(old(self)@),
            line@.len() == 0 || old(self)@.max_entries > 0,
        ensures
            final(self)@ == spec_push(old(self)@, line@),
            history_wf(final(self)@),
    {
        if line.len() == 0 {
            return;
        }
        let n = self.entries.len();
        if n > 0 && bytes_eq(self.entries[n - 1].as_slice(), line) {
            self.cursor = n;
            return;
        }
        let ghost e0 = self@.entries;
        if self.entries.len() >= self.max_entries {
            self.entries.remove(0);
            assert(self@.entries =~= e0.drop_first());
        }
        let ghost e1 = self@.entries;
        self.entries.push(to_vec(line));
        assert(self@.entries =~= e1.push(line@));
        self.cursor = self.entries.len();
    }

    /// Moves the cursor back and returns the line there.
    pub fn prev(&mut self) -> (r: Option<&[u8]>)
        requires
            history_wf(old(self)@),
        ensures
            final(self)@ == spec_prev(old(self)@).0,
            history_wf(final(self)@),
            match r {
                Some(s) => spec_prev(old(self)@).1 == Some(s@),
                None => spec_prev(old(self)@).1 is None,
            },
    {
        if self.entries.len() == 0 || self.cursor == 0 {
            return None;
        }
        self.cursor = self.cursor - 1;
        Some(self.entries[self.cursor].as_slice())
    }

    /// Moves the cursor forward and returns the line there, if any.
    pub fn next(&mut self) -> (r: Option<&[u8]>)
        requires
            history_wf(old(self)@),
        ensures
            final(self)@ == spec_next(old(self)@).0,
            history_wf(final(self)@),
            match r {
                Some(s) => spec_next(old(self)@).1 == Some(s@),
                None => spec_next(old(self)@).1 is None,
            },
    {
        if self.cursor >= self.entries.len() {
            return None;
        }
        self.cursor = self.cursor + 1;
        if self.cursor >= self.entries.len() {
            None
        } else {
            Some(self.entries[self.cursor].as_slice())
        }
    }

    /// Puts the cursor past the newest line.
    pub fn reset_cursor(&mut self)
        requires
            history_wf(old(self)@),
        ensures
            final(self)@ == (HistoryModel { cursor: old(self)@.entries.len(), ..old(self)@ }),
            history_wf(final(self)@),
    {
        self.cursor = self.entries.len();
    }
}

/// A line just entered is the first one recalled: pushing a non-empty
/// line and stepping back gives that line.
pub proof fn lemma_push_then_prev(h: HistoryModel, line: Seq<u8>)
    requires
        history_wf(h),
        line.len() > 0,
        h.max_entries > 0,
    ensures
        spec_prev(spec_push(h, line)).1 == Some(line),
        history_wf(spec_push(h, line)),
{
}

/// Entering the same line twice in a row stores it once.
pub proof fn lemma_push_idempotent(h: HistoryModel, line: Seq<u8>)
    requires
        history_wf(h),
        h.max_entries > 0,
    ensures
        spec_push(spec_push(h, line), line).entries == spec_push(h, line).entries,
{
}

/// Disk operation errors.
#[derive(Debug, Clone, Copy, PartialEq, Eq, Structural)]
pub enum DiskError {
    NoFileSystem,
    ProtocolError,
    InvalidPath,
    ReadError,
    WriteError,
    NotFound,
    OutOfMemory,
}

/// Description of each disk error.
pub open spec fn disk_error_text(e: DiskError) -> Seq<char> {
    match e {
        DiskError::NoFileSystem => "no filesystem found"@,
        DiskError::ProtocolError => "protocol error"@,
        DiskError::InvalidPath => "invalid path"@,
        DiskError::ReadError => "read error"@,
        DiskError::WriteError => "write error"@,
        DiskError::NotFound => "file not found"@,
        DiskError::OutOfMemory => "out of memory"@,
    }
}

impl DiskError {
    pub fn as_str(&self) -> (r: &'static str)
        ensures
            r@ == disk_error_text(*self),
    {
        match self {
            DiskError::NoFileSystem => "no filesystem found",
            DiskError::ProtocolError => "protocol error",
            DiskError::InvalidPath => "invalid path",
            DiskError::ReadError => "read error",
            DiskError::WriteError => "write error",
            DiskError::NotFound => "file not found",
            DiskError::OutOfMemory => "out of memory",
        }
    }
}

/// The contents of a large file read from disk.
pub struct LargeFileBuffer {
    data: Vec<u8>,
}

impl LargeFileBuffer {
    pub closed spec fn view(&self) -> Seq<u8> {
        self.data@
    }

    /// Wraps bytes that were read.
    pub fn from_vec(data: Vec<u8>) -> (r: Self)
        ensures
            r@ == data@,
    {
        LargeFileBuffer { data }
    }

    pub fn len(&self) -> (r: usize)
        ensures
            r == self@.len(),
    {
        self.data.len()
    }

    pub fn as_slice(&self) -> (r: &[u8])
        ensures
            r@ == self@,
    {
        self.data.as_slice()
    }
}

/// A system-partition path (`\a\b`) as a path relative to a host root:
/// backslashes become slashes and leading slashes are dropped.
pub open spec fn spec_host_relative(path: Seq<u8>) -> Seq<u8> {
    drop_slashes(path.map_values(|b: u8| if b == 92 { 47u8 } else { b }))
}

/// `s` without its leading `/` bytes.
pub open spec fn drop_slashes(s: Seq<u8>) -> Seq<u8>
    decreases s.len(),
{
    if s.len() > 0 && s[0] == 47 {
        drop_slashes(s.drop_first())
    } else {
        s
    }
}

/// Maps a system-partition path onto a path relative to a host root.
pub fn host_relative_path(path: &[u8]) -> (r: Vec<u8>)
    ensures
        r@ == spec_host_relative(path@),
{
    let mut norm: Vec<u8> = Vec::new();
    let mut i: usize = 0;
    while i < path.len()
        invariant
            0 <= i <= path@.len(),
            norm@ == path@.subrange(0, i as int).map_values(|b: u8| if b == 92 { 47u8 } else { b }),
        decreases path.len() - i,
    {
        let b = path[i];
        norm.push(if b == 92 { 47 } else { b });
        i = i + 1;
        assert(norm@ =~= path@.subrange(0, i as int).map_values(
            |b: u8| if b == 92 { 47u8 } else { b },
        ));
    }
    assert(path@.subrange(0, i as int) =~= path@);
    let ghost full = norm@;
    let mut k: usize = 0;
    assert(full.subrange(0, full.len() as int) =~= full);
    while k < norm.len() && norm[k] == 47
        invariant
            0 <= k <= norm@.len(),
            norm@ == full,
            drop_slashes(full) == drop_slashes(full.subrange(k as int, full.len() as int)),
        decreases norm.len() - k,
    {
        assert(full.subrange(k as int, full.len() as int).drop_first() =~= full.subrange(
            k + 1,
            full.len() as int,
        ));
        k = k + 1;
    }
    let nl = norm.len();
    to_vec(vstd::slice::slice_subrange(norm.as_slice(), k, nl))
}

} // verus!
