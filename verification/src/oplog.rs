//! The most recent operations of an exerciser.

use ringbuffer::{AllocRingBuffer, RingBufferExt, RingBufferWrite};
use vstd::arithmetic::power2::{lemma2_to64, pow2};
use vstd::prelude::*;
use vstd::string::*;

use crate::text::{dec, push_dec};

verus! {

/// An operation of the exerciser.
#[derive(Clone, Copy, Debug, PartialEq, Eq, Structural)]
pub enum Op {
    CloseOpen,
    Read,
    Write,
    MapRead,
    Truncate,
    MapWrite,
    Fsync,
    Fdatasync,
}

impl Op {
    pub open spec fn name_text(self) -> Seq<char> {
        match self {
            Op::CloseOpen => "close/open"@,
            Op::Read => "read"@,
            Op::Write => "write"@,
            Op::MapRead => "mapread"@,
            Op::Truncate => "truncate"@,
            Op::MapWrite => "mapwrite"@,
            Op::Fsync => "fsync"@,
            Op::Fdatasync => "fdatasync"@,
        }
    }

    pub open spec fn variant_text(self) -> Seq<char> {
        match self {
            Op::CloseOpen => "CloseOpen"@,
            Op::Read => "Read"@,
            Op::Write => "Write"@,
            Op::MapRead => "MapRead"@,
            Op::Truncate => "Truncate"@,
            Op::MapWrite => "MapWrite"@,
            Op::Fsync => "Fsync"@,
            Op::Fdatasync => "Fdatasync"@,
        }
    }

    pub fn name(self) -> (s: &'static str)
        ensures
            s@ == self.name_text(),
    {
        match self {
            Op::CloseOpen => "close/open",
            Op::Read => "read",
            Op::Write => "write",
            Op::MapRead => "mapread",
            Op::Truncate => "truncate",
            Op::MapWrite => "mapwrite",
            Op::Fsync => "fsync",
            Op::Fdatasync => "fdatasync",
        }
    }

    pub fn variant(self) -> (s: &'static str)
        ensures
            s@ == self.variant_text(),
    {
        match self {
            Op::CloseOpen => "CloseOpen",
            Op::Read => "Read",
            Op::Write => "Write",
            Op::MapRead => "MapRead",
            Op::Truncate => "Truncate",
            Op::MapWrite => "MapWrite",
            Op::Fsync => "Fsync",
            Op::Fdatasync => "Fdatasync",
        }
    }

    /// The operation with the number `index`, in the order of the weights.
    pub fn from_index(index: usize) -> (op: Option<Op>)
        ensures
            op == match index {
                0 => Some(Op::CloseOpen),
                1 => Some(Op::Read),
                2 => Some(Op::Write),
                3 => Some(Op::MapRead),
                4 => Some(Op::Truncate),
                5 => Some(Op::MapWrite),
                6 => Some(Op::Fsync),
                7 => Some(Op::Fdatasync),
                _ => None,
            },
    {
        match index {
            0 => Some(Op::CloseOpen),
            1 => Some(Op::Read),
            2 => Some(Op::Write),
            3 => Some(Op::MapRead),
            4 => Some(Op::Truncate),
            5 => Some(Op::MapWrite),
            6 => Some(Op::Fsync),
            7 => Some(Op::Fdatasync),
            _ => None,
        }
    }
}

/// What an exerciser did in a step.
#[derive(Clone, Copy, Debug, PartialEq, Eq, Structural)]
pub enum LogEntry {
    Skip(Op),
    CloseOpen,
    /// Offset, size.
    Read(u64, usize),
    /// Old file length, offset, size.
    Write(u64, u64, usize),
    /// Offset, size.
    MapRead(u64, usize),
    /// Old file length, new file length.
    Truncate(u64, u64),
    /// Old file length, offset, size.
    MapWrite(u64, u64, usize),
    Fsync,
    Fdatasync,
}

impl LogEntry {
    /// The entry with its fields.
    pub open spec fn debug_text(self) -> Seq<char> {
        match self {
            LogEntry::Skip(op) => "Skip("@ + op.variant_text() + ")"@,
            LogEntry::CloseOpen => "CloseOpen"@,
            LogEntry::Read(offset, size) => "Read("@ + dec(offset as nat) + ", "@ + dec(size as nat)
                + ")"@,
            LogEntry::Write(old_len, offset, size) => "Write("@ + dec(old_len as nat) + ", "@ + dec(
                offset as nat,
            ) + ", "@ + dec(size as nat) + ")"@,
            LogEntry::MapRead(offset, size) => "MapRead("@ + dec(offset as nat) + ", "@ + dec(
                size as nat,
            ) + ")"@,
            LogEntry::Truncate(old_len, new_len) => "Truncate("@ + dec(old_len as nat) + ", "@ + dec(
                new_len as nat,
            ) + ")"@,
            LogEntry::MapWrite(old_len, offset, size) => "MapWrite("@ + dec(old_len as nat) + ", "@
                + dec(offset as nat) + ", "@ + dec(size as nat) + ")"@,
            LogEntry::Fsync => "Fsync"@,
            LogEntry::Fdatasync => "Fdatasync"@,
        }
    }

    pub fn debug(self) -> (s: String)
        ensures
            s@ == self.debug_text(),
    {
        match self {
            LogEntry::Skip(op) => "Skip(".to_string().concat(op.variant()).concat(")"),
            LogEntry::CloseOpen => "CloseOpen".to_string(),
            LogEntry::Read(offset, size) => two("Read(", offset, size as u64),
            LogEntry::Write(old_len, offset, size) => three(
                "Write(",
                old_len,
                offset,
                size as u64,
            ),
            LogEntry::MapRead(offset, size) => two("MapRead(", offset, size as u64),
            LogEntry::Truncate(old_len, new_len) => two("Truncate(", old_len, new_len),
            LogEntry::MapWrite(old_len, offset, size) => three(
                "MapWrite(",
                old_len,
                offset,
                size as u64,
            ),
            LogEntry::Fsync => "Fsync".to_string(),
            LogEntry::Fdatasync => "Fdatasync".to_string(),
        }
    }
}

fn two(front: &str, a: u64, b: u64) -> (s: String)
    ensures
        s@ == front@ + dec(a as nat) + ", "@ + dec(b as nat) + ")"@,
{
    let mut s = front.to_string();
    push_dec(&mut s, a);
    s.append(", ");
    push_dec(&mut s, b);
    s.concat(")")
}

fn three(front: &str, a: u64, b: u64, c: u64) -> (s: String)
    ensures
        s@ == front@ + dec(a as nat) + ", "@ + dec(b as nat) + ", "@ + dec(c as nat) + ")"@,
{
    let mut s = front.to_string();
    push_dec(&mut s, a);
    s.append(", ");
    push_dec(&mut s, b);
    s.append(", ");
    push_dec(&mut s, c);
    s.concat(")")
}

/// Entries that a log keeps at most.
pub const LOG_CAPACITY: usize = 1024;

/// A log in a ring buffer: `ringbuffer`'s `AllocRingBuffer`.
#[verifier::external_body]
pub struct OpLog {
    entries: AllocRingBuffer<LogEntry>,
}

/// What a log holds, oldest first.
pub uninterp spec fn log_entries(log: OpLog) -> Seq<LogEntry>;

/// The capacity that a log was made with.
pub uninterp spec fn log_capacity(log: OpLog) -> nat;

/// How many entries were put in a log so far.
pub uninterp spec fn log_pushed(log: OpLog) -> nat;

/// What a log of a given capacity holds once `entry` was put in: the oldest entry leaves a
/// full log.
pub open spec fn pushed(entries: Seq<LogEntry>, capacity: nat, entry: LogEntry) -> Seq<LogEntry> {
    if entries.len() < capacity {
        entries.push(entry)
    } else {
        entries.drop_first().push(entry)
    }
}

/// What the log of an exerciser holds once `entry` was put in.
pub open spec fn entry_added(entries: Seq<LogEntry>, entry: LogEntry) -> Seq<LogEntry> {
    pushed(entries, LOG_CAPACITY as nat, entry)
}

impl OpLog {
    /// Makes an empty buffer with `AllocRingBuffer::with_capacity`, which takes powers of two
    /// and allocates as much.
    #[verifier::external_body]
    fn with_capacity(capacity: usize) -> (log: Self)
        requires
            exists|k: nat| capacity == #[trigger] pow2(k),
            capacity <= LOG_CAPACITY,
        ensures
            log_entries(log) == Seq::<LogEntry>::empty(),
            log_capacity(log) == capacity,
            log_pushed(log) == 0,
    {
        OpLog { entries: AllocRingBuffer::with_capacity(capacity) }
    }

    /// The empty log of an exerciser.
    pub fn new() -> (log: Self)
        ensures
            log_entries(log) == Seq::<LogEntry>::empty(),
            log_capacity(log) == LOG_CAPACITY,
            log_pushed(log) == 0,
    {
        proof {
            lemma2_to64();
            assert(LOG_CAPACITY == pow2(10));
        }
        OpLog::with_capacity(LOG_CAPACITY)
    }

    /// Puts an entry in with `RingBufferWrite::push`, which overwrites the oldest one of a
    /// full buffer. The buffer counts in a `usize` what was put in.
    #[verifier::external_body]
    pub(crate) fn push(&mut self, entry: LogEntry)
        requires
            log_pushed(*old(self)) < usize::MAX,
        ensures
            log_entries(*final(self)) == pushed(
                log_entries(*old(self)),
                log_capacity(*old(self)),
                entry,
            ),
            log_capacity(*final(self)) == log_capacity(*old(self)),
            log_pushed(*final(self)) == log_pushed(*old(self)) + 1,
    {
        self.entries.push(entry);
    }

    /// Copies the entries out with `RingBufferExt::to_vec`, oldest first. A buffer never
    /// holds more than its capacity. The buffer adds to the place of its oldest entry in an
    /// `isize`, and what that cannot hold is left out: all entries were put in before the
    /// count passed it, or the oldest one was put in after.
    #[verifier::external_body]
    pub(crate) fn to_vec(&self) -> (out: Vec<LogEntry>)
        requires
            log_pushed(*self) <= isize::MAX + 1 || log_pushed(*self) > isize::MAX + log_capacity(
                *self,
            ),
        ensures
            out@ == log_entries(*self),
            out@.len() <= log_capacity(*self),
    {
        self.entries.to_vec()
    }
}

} // verus!
