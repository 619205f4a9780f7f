//! What an exerciser checks after a step, and what it reports when a check fails.

use vstd::prelude::*;
use vstd::string::*;

use crate::cli::opt_text;
use crate::fsx::{offset_text, size_text, Exerciser, FsxView};
use crate::oplog::{LogEntry, LOG_CAPACITY};
use crate::paths::{file_name, join, joined_path, last_name, parent, parent_of};
use crate::text::{
    dec, hex, hex_0x, pad_left, pad_right, push_dec, push_dec_wide, push_hex_0x, push_hex_padded,
    push_padded_right, texts,
};

verus! {

/// A failed run: what went wrong, and the operations before it.
pub struct FsxError {
    pub message: String,
    pub report: String,
}

impl FsxError {
    /// The message, followed by the report where there is one.
    pub fn text(&self) -> (s: String)
        ensures
            s@ == if self.report@.len() == 0 {
                self.message@
            } else {
                self.message@ + "\n"@ + self.report@
            },
    {
        if self.report.as_str().unicode_len() == 0 {
            self.message.clone()
        } else {
            self.message.clone().concat("\n").concat(self.report.as_str())
        }
    }
}

/// A failed check: the lines to log as errors, where the expected contents go, and the
/// error.
pub struct Failure {
    pub lines: Vec<String>,
    pub good_file: String,
    pub error: FsxError,
}

/// A failure by its values.
#[verifier::ext_equal]
pub struct FailureView {
    pub lines: Seq<Seq<char>>,
    pub good_file: Seq<char>,
    pub message: Seq<char>,
    pub report: Seq<char>,
}

impl View for Failure {
    type V = FailureView;

    open spec fn view(&self) -> FailureView {
        FailureView {
            lines: texts(self.lines@),
            good_file: self.good_file@,
            message: self.error.message@,
            report: self.error.report@,
        }
    }
}

pub open spec fn check_view(r: Result<(), Failure>) -> Result<(), FailureView> {
    match r {
        Ok(_) => Ok(()),
        Err(e) => Err(e@),
    }
}

/// Whether a write to a file of the length `old_len` left a hole or made it longer.
pub open spec fn growth_text(old_len: u64, offset: u64, size: usize) -> Seq<char> {
    if offset > old_len {
        " HOLE"@
    } else if offset + size > old_len {
        " EXTEND"@
    } else {
        ""@
    }
}

/// From where to where an operation went.
pub open spec fn range_text(v: FsxView, offset: u64, size: usize) -> Seq<char> {
    offset_text(v, offset as nat) + " => "@ + offset_text(v, (offset + size) as nat) + " ("@
        + size_text(v, size as nat) + " bytes)"@
}

/// The line about an entry of the log that was made in step `i`.
pub open spec fn dump_line(v: FsxView, i: nat, entry: LogEntry) -> Seq<char> {
    let front = pad_left(dec(i), v.stepwidth as nat, ' ');
    match entry {
        LogEntry::Skip(op) => front + " SKIPPED  ("@ + op.name_text() + ")"@,
        LogEntry::CloseOpen => front + " CLOSE/OPEN"@,
        LogEntry::Read(offset, size) => front + " READ     "@ + range_text(v, offset, size),
        LogEntry::MapRead(offset, size) => front + " MAPREAD  "@ + range_text(v, offset, size),
        LogEntry::Write(old_len, offset, size) => front + " WRITE    "@ + range_text(
            v,
            offset,
            size,
        ) + growth_text(old_len, offset, size),
        LogEntry::MapWrite(old_len, offset, size) => front + " MAPWRITE "@ + range_text(
            v,
            offset,
            size,
        ) + growth_text(old_len, offset, size),
        LogEntry::Truncate(old_len, new_len) => front + " TRUNCATE  "@ + pad_right(
            if new_len > old_len {
                "UP"@
            } else {
                "DOWN"@
            },
            4,
        ) + " from "@ + offset_text(v, old_len as nat) + " to "@ + offset_text(v, new_len as nat),
        LogEntry::Fsync => front + " FSYNC"@,
        LogEntry::Fdatasync => front + " FDATASYNC"@,
    }
}

/// The step in which entry `k` of the log was made.
pub open spec fn step_of_entry(v: FsxView, k: int) -> nat {
    (v.steps + 1 - v.log.len() + k) as nat
}

/// The lines of a dump of the log.
pub open spec fn dump_lines(v: FsxView, seed: u64) -> Seq<Seq<char>> {
    seq!["Using seed "@ + dec(seed as nat), "LOG DUMP"@] + Seq::new(
        v.log.len(),
        |k: int| dump_line(v, step_of_entry(v, k), v.log[k]),
    )
}

/// The first `n` lines of a report about the log.
pub open spec fn report_lines(v: FsxView, n: nat) -> Seq<char>
    decreases n,
{
    if n == 0 {
        Seq::empty()
    } else {
        report_lines(v, (n - 1) as nat) + dec(step_of_entry(v, n - 1)) + ": "@
            + v.log[n - 1].debug_text() + "\n"@
    }
}

pub open spec fn report_text(v: FsxView, seed: u64) -> Seq<char> {
    "Using seed "@ + dec(seed as nat) + "\nLOG DUMP\n"@ + report_lines(v, v.log.len())
}

/// Where the expected contents of a file go: beside it, or among the artifacts.
pub open spec fn good_place(fname: Seq<char>, artifacts: Option<Seq<char>>) -> Seq<char> {
    let dir = match artifacts {
        Some(dir) => dir,
        None => match parent_of(fname) {
            Some(dir) => dir,
            None => fname,
        },
    };
    joined_path(dir, last_name(fname)->0 + ".fsxgood"@)
}

impl Exerciser {
    /// The failure with the given message, its own lines behind `first`.
    pub open spec fn failure(&self, first: Seq<Seq<char>>, message: Seq<char>) -> FailureView {
        FailureView {
            lines: first.push(message) + dump_lines(self@, self.seed),
            good_file: good_place(self.fname@, opt_text(self.artifacts_dir)),
            message,
            report: report_text(self@, self.seed),
        }
    }
}

/// `expected` and `found` in a line about a transfer that came out short.
pub open spec fn short_text(front: Seq<char>, found: nat, wanted: nat) -> Seq<char> {
    front + hex_0x(found) + " bytes instead of "@ + hex_0x(wanted)
}

/// Whether the bytes at place `i` differ.
pub open spec fn differs(good: Seq<u8>, buf: Seq<u8>, offset: int, i: int) -> bool {
    good[offset + i] != buf[i]
}

/// The number of the first `n` bytes that differ.
pub open spec fn wrong_bytes(good: Seq<u8>, buf: Seq<u8>, offset: int, n: nat) -> nat
    decreases n,
{
    if n == 0 {
        0
    } else {
        wrong_bytes(good, buf, offset, (n - 1) as nat) + if differs(good, buf, offset, n - 1) {
            1nat
        } else {
            0nat
        }
    }
}

/// The first place from `i` on at which the bytes differ; the end where there is none.
pub open spec fn first_wrong(good: Seq<u8>, buf: Seq<u8>, offset: int, i: nat) -> nat
    decreases buf.len() - i,
{
    if i >= buf.len() || differs(good, buf, offset, i as int) {
        i
    } else {
        first_wrong(good, buf, offset, i + 1)
    }
}

/// The place whose byte tells the step that a wrong byte came from: a stamp is plain at even
/// offsets only.
pub open spec fn telling_place(offset: int, first: int) -> int {
    if (offset + first) % 2 != 0 {
        first + 1
    } else {
        first
    }
}

/// Whether what was read is right, or wrong in a way that can be reported: no wrong byte
/// is alone at the end, at an odd offset.
pub open spec fn can_tell(good: Seq<u8>, buf: Seq<u8>, offset: int) -> bool {
    let first = first_wrong(good, buf, offset, 0);
    first < buf.len() ==> telling_place(offset, first as int) < buf.len()
}

/// A byte in hexadecimal, two digits behind `0x`.
pub open spec fn byte_text(b: u8) -> Seq<char> {
    "0x"@ + pad_left(hex(b as nat), 2, '0')
}

/// The lines about bytes that were read at `offset` and are not the expected ones.
pub open spec fn miscompare_lines(v: FsxView, buf: Seq<u8>, offset: int) -> Seq<Seq<char>> {
    let first = first_wrong(v.good, buf, offset, 0) as int;
    let op = buf[telling_place(offset, first)];
    seq![
        "miscompare: offset= "@ + hex_0x(offset as nat) + ", size = "@ + hex_0x(buf.len()),
        pad_right("OFFSET"@, v.fwidth as nat) + " GOOD  BAD  "@ + pad_right(
            "RANGE"@,
            v.swidth as nat,
        ),
        offset_text(v, (offset + first) as nat) + " "@ + byte_text(v.good[offset + first]) + " "@
            + byte_text(buf[first]) + " "@ + size_text(
            v,
            wrong_bytes(v.good, buf, offset, buf.len()),
        ),
        if op > 0 {
            "Step# (mod 256) for a misdirected write may be "@ + dec(op as nat)
        } else {
            "Step# for the bad data is unknown; check HOLE and EXTEND ops"@
        },
    ]
}

/// The verdict on bytes that were read at `offset`.
pub open spec fn buffer_verdict(ex: &Exerciser, buf: Seq<u8>, offset: int) -> Result<
    (),
    FailureView,
> {
    if ex@.good.subrange(offset, offset + buf.len()) == buf {
        Ok(())
    } else {
        Err(ex.failure(miscompare_lines(ex@, buf, offset), "miscompare"@))
    }
}

fn push_line(lines: &mut Vec<String>, line: String)
    ensures
        texts(final(lines)@) == texts(old(lines)@).push(line@),
{
    let ghost before = texts(lines@);
    lines.push(line);
    assert(texts(lines@) =~= before.push(line@));
}

pub(crate) fn push_byte(out: &mut String, b: u8)
    ensures
        final(out)@ == old(out)@ + byte_text(b),
{
    let ghost before = out@;
    out.append("0x");
    push_hex_padded(out, b as u64, 2);
    assert(out@ =~= before + byte_text(b));
}

fn short_line(front: &str, found: u64, wanted: u64) -> (s: String)
    ensures
        s@ == short_text(front@, found as nat, wanted as nat),
{
    let mut s = front.to_string();
    push_hex_0x(&mut s, found, 0);
    s.append(" bytes instead of ");
    push_hex_0x(&mut s, wanted, 0);
    s
}

impl Exerciser {
    fn push_range(&self, s: &mut String, offset: u64, size: usize)
        requires
            offset + size <= u64::MAX,
        ensures
            final(s)@ == old(s)@ + range_text(self@, offset, size),
    {
        let ghost before = s@;
        push_hex_0x(s, offset, self.fwidth);
        s.append(" => ");
        push_hex_0x(s, offset + size as u64, self.fwidth);
        s.append(" (");
        push_hex_0x(s, size as u64, self.swidth);
        s.append(" bytes)");
        assert(s@ =~= before + range_text(self@, offset, size));
    }

    fn growth(old_len: u64, offset: u64, size: usize) -> (s: &'static str)
        requires
            offset + size <= u64::MAX,
        ensures
            s@ == growth_text(old_len, offset, size),
    {
        if offset > old_len {
            " HOLE"
        } else if offset + size as u64 > old_len {
            " EXTEND"
        } else {
            ""
        }
    }

    fn dumped(&self, i: u64, entry: LogEntry) -> (s: String)
        requires
            crate::fsx::entry_in_file(entry, self.flen),
        ensures
            s@ == dump_line(self@, i as nat, entry),
    {
        let mut s = String::new();
        push_dec_wide(&mut s, i, self.stepwidth);
        assert(s@ =~= pad_left(dec(i as nat), self.stepwidth as nat, ' '));
        match entry {
            LogEntry::Skip(op) => {
                s.append(" SKIPPED  (");
                s.append(op.name());
                s.append(")");
            },
            LogEntry::CloseOpen => {
                s.append(" CLOSE/OPEN");
            },
            LogEntry::Read(offset, size) => {
                s.append(" READ     ");
                self.push_range(&mut s, offset, size);
            },
            LogEntry::MapRead(offset, size) => {
                s.append(" MAPREAD  ");
                self.push_range(&mut s, offset, size);
            },
            LogEntry::Write(old_len, offset, size) => {
                s.append(" WRITE    ");
                self.push_range(&mut s, offset, size);
                s.append(Self::growth(old_len, offset, size));
            },
            LogEntry::MapWrite(old_len, offset, size) => {
                s.append(" MAPWRITE ");
                self.push_range(&mut s, offset, size);
                s.append(Self::growth(old_len, offset, size));
            },
            LogEntry::Truncate(old_len, new_len) => {
                s.append(" TRUNCATE  ");
                let dir = if new_len > old_len {
                    "UP"
                } else {
                    "DOWN"
                };
                push_padded_right(&mut s, dir, 4);
                s.append(" from ");
                push_hex_0x(&mut s, old_len, self.fwidth);
                s.append(" to ");
                push_hex_0x(&mut s, new_len, self.fwidth);
            },
            LogEntry::Fsync => {
                s.append(" FSYNC");
            },
            LogEntry::Fdatasync => {
                s.append(" FDATASYNC");
            },
        }
        s
    }

    /// The contents of the log, line by line.
    pub fn dump_logfile(&self) -> (lines: Vec<String>)
        requires
            self.wf(),
            self.dumps(),
        ensures
            texts(lines@) == dump_lines(self@, self.seed),
    {
        let entries = self.oplog.to_vec();
        let mut i: u64 = self.steps + 1 - entries.len() as u64;
        let mut lines: Vec<String> = Vec::new();
        let mut seed = "Using seed ".to_string();
        push_dec(&mut seed, self.seed);
        push_line(&mut lines, seed);
        push_line(&mut lines, "LOG DUMP".to_string());
        let mut k: usize = 0;
        let ghost head = texts(lines@);
        let ghost body = Seq::new(
            self@.log.len(),
            |k: int| dump_line(self@, step_of_entry(self@, k), self@.log[k]),
        );
        assert(head =~= seq!["Using seed "@ + dec(self.seed as nat), "LOG DUMP"@]);
        assert(head =~= head + body.take(0));
        while k < entries.len()
            invariant
                self.wf(),
                entries@ == self@.log,
                k <= entries@.len(),
                i == step_of_entry(self@, k as int),
                body == Seq::new(
                    self@.log.len(),
                    |k: int| dump_line(self@, step_of_entry(self@, k), self@.log[k]),
                ),
                texts(lines@) == head + body.take(k as int),
            decreases entries@.len() - k,
        {
            let line = self.dumped(i, entries[k]);
            assert(line@ == body[k as int]);
            push_line(&mut lines, line);
            assert(head + body.take(k + 1) =~= (head + body.take(k as int)).push(body[k as int]));
            k = k + 1;
            i = i + 1;
        }
        assert(body.take(k as int) =~= body);
        lines
    }

    /// The log as part of an error.
    pub fn failure_report(&self) -> (report: String)
        requires
            self.wf(),
            self.dumps(),
        ensures
            report@ == report_text(self@, self.seed),
    {
        let entries = self.oplog.to_vec();
        let mut i: u64 = self.steps + 1 - entries.len() as u64;
        let mut report = "Using seed ".to_string();
        push_dec(&mut report, self.seed);
        report.append("\nLOG DUMP\n");
        let ghost head = report@;
        let mut k: usize = 0;
        assert(head =~= head + report_lines(self@, 0));
        while k < entries.len()
            invariant
                self.wf(),
                entries@ == self@.log,
                k <= entries@.len(),
                i == step_of_entry(self@, k as int),
                report@ == head + report_lines(self@, k as nat),
            decreases entries@.len() - k,
        {
            push_dec(&mut report, i);
            report.append(": ");
            report.append(entries[k].debug().as_str());
            report.append("\n");
            assert(report@ =~= head + report_lines(self@, (k + 1) as nat));
            k = k + 1;
            i = i + 1;
        }
        report
    }

    /// Where the expected contents go when a check fails.
    pub fn save_goodfile(&self) -> (path: String)
        requires
            self.wf(),
        ensures
            path@ == good_place(self.fname@, opt_text(self.artifacts_dir)),
    {
        let name = match file_name(self.fname.as_str()) {
            Some(name) => name,
            None => String::new(),
        };
        let dir = match &self.artifacts_dir {
            Some(dir) => dir.clone(),
            None => match parent(self.fname.as_str()) {
                Some(dir) => dir,
                None => self.fname.clone(),
            },
        };
        join(dir.as_str(), name.concat(".fsxgood").as_str())
    }

    fn fail_after(&self, first: Vec<String>, message: &str) -> (e: Failure)
        requires
            self.wf(),
            self.dumps(),
        ensures
            e@ == self.failure(texts(first@), message@),
    {
        let mut lines = first;
        push_line(&mut lines, message.to_string());
        let mut dump = self.dump_logfile();
        let ghost head = texts(lines@);
        let ghost tail = texts(dump@);
        lines.append(&mut dump);
        assert(texts(lines@) =~= head + tail);
        Failure {
            lines,
            good_file: self.save_goodfile(),
            error: FsxError { message: message.to_string(), report: self.failure_report() },
        }
    }

    /// Reports a failure.
    pub fn fail(&self, message: &str) -> (e: Failure)
        requires
            self.wf(),
            self.dumps(),
        ensures
            e@ == self.failure(Seq::empty(), message@),
    {
        let first: Vec<String> = Vec::new();
        assert(texts(first@) =~= Seq::empty());
        self.fail_after(first, message)
    }

    fn fail_short(&self, line: String, message: &str) -> (e: Failure)
        requires
            self.wf(),
            self.dumps(),
        ensures
            e@ == self.failure(seq![line@], message@),
    {
        let mut first: Vec<String> = Vec::new();
        push_line(&mut first, line);
        assert(texts(first@) =~= seq![line@]);
        self.fail_after(first, message)
    }

    /// Whether the log can be read, as every report of a failure does.
    pub fn can_dump(&self) -> (r: bool)
        ensures
            r == self.dumps(),
    {
        let most: u64 = isize::MAX as u64;
        self.steps <= most + 1 || self.steps > most + LOG_CAPACITY as u64
    }

    /// Whether `check_buffers` can judge what was read.
    pub fn can_check(&self, buf: &[u8], offset: u64) -> (r: bool)
        requires
            self.wf(),
            offset + buf@.len() <= self.flen,
        ensures
            r == (can_tell(self@.good, buf@, offset as int) && (buffer_verdict(
                self,
                buf@,
                offset as int,
            ) is Err ==> self.dumps())),
    {
        let first: usize = self.find_wrong(buf, offset);
        if first == buf.len() {
            return true;
        }
        if !self.can_dump() {
            return false;
        }
        if (offset + first as u64) % 2 != 0 {
            first + 1 < buf.len()
        } else {
            true
        }
    }

    fn find_wrong(&self, buf: &[u8], offset: u64) -> (first: usize)
        requires
            self.wf(),
            offset + buf@.len() <= self.flen,
        ensures
            first == first_wrong(self@.good, buf@, offset as int, 0),
            first <= buf@.len(),
            first < buf@.len() ==> differs(self@.good, buf@, offset as int, first as int),
            first == buf@.len() <==> self@.good.subrange(offset as int, offset + buf@.len())
                == buf@,
    {
        let total: usize = buf.len();
        let mut i: usize = 0;
        while i < total && self.good_buf[offset as usize + i] == buf[i]
            invariant
                self.wf(),
                total == buf@.len(),
                offset + total <= self.flen,
                i <= total,
                first_wrong(self@.good, buf@, offset as int, 0) == first_wrong(
                    self@.good,
                    buf@,
                    offset as int,
                    i as nat,
                ),
                forall|j: int| 0 <= j < i ==> !differs(self@.good, buf@, offset as int, j),
            decreases total - i,
        {
            i = i + 1;
        }
        proof {
            let part = self@.good.subrange(offset as int, offset + buf@.len());
            if i == total {
                assert forall|j: int| 0 <= j < total implies part[j] == buf@[j] by {
                    assert(!differs(self@.good, buf@, offset as int, j));
                }
                assert(part =~= buf@);
            } else {
                assert(part[i as int] != buf@[i as int]);
            }
        }
        i
    }

    fn count_wrong(&self, buf: &[u8], offset: u64) -> (n: usize)
        requires
            self.wf(),
            offset + buf@.len() <= self.flen,
        ensures
            n == wrong_bytes(self@.good, buf@, offset as int, buf@.len()),
    {
        let total: usize = buf.len();
        let mut n: usize = 0;
        let mut i: usize = 0;
        while i < total
            invariant
                self.wf(),
                total == buf@.len(),
                offset + total <= self.flen,
                i <= total,
                n <= i,
                n == wrong_bytes(self@.good, buf@, offset as int, i as nat),
            decreases total - i,
        {
            if self.good_buf[offset as usize + i] != buf[i] {
                n = n + 1;
            }
            i = i + 1;
        }
        n
    }

    /// Compares what was read at `offset` with what the file ought to hold there.
    pub fn check_buffers(&self, buf: &[u8], offset: u64) -> (r: Result<(), Failure>)
        requires
            self.wf(),
            offset + buf@.len() <= self.flen,
            can_tell(self@.good, buf@, offset as int),
            buffer_verdict(self, buf@, offset as int) is Err ==> self.dumps(),
        ensures
            check_view(r) == buffer_verdict(self, buf@, offset as int),
    {
        let first: usize = self.find_wrong(buf, offset);
        let size: usize = buf.len();
        if first == size {
            return Ok(());
        }
        let at: u64 = offset + first as u64;
        let good: u8 = self.good_buf[at as usize];
        let bad: u8 = buf[first];
        let op: u8 = if at % 2 != 0 {
            buf[first + 1]
        } else {
            buf[first]
        };
        let n: usize = self.count_wrong(buf, offset);
        let mut lines: Vec<String> = Vec::new();
        let mut line = "miscompare: offset= ".to_string();
        push_hex_0x(&mut line, offset, 0);
        line.append(", size = ");
        push_hex_0x(&mut line, size as u64, 0);
        push_line(&mut lines, line);
        let mut head = String::new();
        push_padded_right(&mut head, "OFFSET", self.fwidth);
        head.append(" GOOD  BAD  ");
        push_padded_right(&mut head, "RANGE", self.swidth);
        assert(head@ =~= pad_right("OFFSET"@, self.fwidth as nat) + " GOOD  BAD  "@ + pad_right(
            "RANGE"@,
            self.swidth as nat,
        ));
        push_line(&mut lines, head);
        let mut row = String::new();
        push_hex_0x(&mut row, at, self.fwidth);
        assert(row@ =~= offset_text(self@, at as nat));
        row.append(" ");
        push_byte(&mut row, good);
        row.append(" ");
        push_byte(&mut row, bad);
        row.append(" ");
        push_hex_0x(&mut row, n as u64, self.swidth);
        push_line(&mut lines, row);
        if op > 0 {
            let mut step = "Step# (mod 256) for a misdirected write may be ".to_string();
            push_dec(&mut step, op as u64);
            push_line(&mut lines, step);
        } else {
            push_line(
                &mut lines,
                "Step# for the bad data is unknown; check HOLE and EXTEND ops".to_string(),
            );
        }
        assert(texts(lines@) =~= miscompare_lines(self@, buf@, offset as int));
        Err(self.fail_after(lines, "miscompare"))
    }

    /// Judges a read of `buf.len()` bytes at `offset` that came back with `read` bytes.
    pub fn doread(&self, buf: &[u8], offset: u64, read: usize) -> (r: Result<(), Failure>)
        requires
            self.wf(),
            offset + buf@.len() <= self.flen,
            read >= buf@.len() ==> can_tell(self@.good, buf@, offset as int),
            read < buf@.len() || buffer_verdict(self, buf@, offset as int) is Err ==> self.dumps(),
        ensures
            check_view(r) == if read < buf@.len() {
                Err(
                    self.failure(
                        seq![short_text("short read: "@, read as nat, buf@.len())],
                        "short read"@,
                    ),
                )
            } else {
                buffer_verdict(self, buf@, offset as int)
            },
    {
        let size: usize = buf.len();
        if read < size {
            let line = short_line("short read: ", read as u64, size as u64);
            return Err(self.fail_short(line, "short read"));
        }
        self.check_buffers(buf, offset)
    }

    /// Judges a write of `size` bytes of which `written` were written.
    pub fn dowrite(&self, size: usize, written: usize) -> (r: Result<(), Failure>)
        requires
            self.wf(),
            written != size ==> self.dumps(),
        ensures
            check_view(r) == if written != size {
                Err(
                    self.failure(
                        seq![short_text("short write: "@, written as nat, size as nat)],
                        "short write"@,
                    ),
                )
            } else {
                Ok(())
            },
    {
        if written != size {
            let line = short_line("short write: ", written as u64, size as u64);
            return Err(self.fail_short(line, "short write"));
        }
        Ok(())
    }

    /// Judges the write of the whole file of which `written` bytes were written.
    pub fn writefileimage(&self, written: usize) -> (r: Result<(), Failure>)
        requires
            self.wf(),
            written != self.file_size ==> self.dumps(),
        ensures
            check_view(r) == if written != self.file_size {
                Err(
                    self.failure(
                        seq![short_text("short write: "@, written as nat, self.file_size as nat)],
                        "short write while writing file image"@,
                    ),
                )
            } else {
                Ok(())
            },
    {
        if written as u64 != self.file_size {
            let line = short_line("short write: ", written as u64, self.file_size);
            return Err(self.fail_short(line, "short write while writing file image"));
        }
        Ok(())
    }

    /// Whether the size of the file is to be looked at after this step.
    pub fn size_check_due(&self) -> (r: bool)
        ensures
            r == (self.steps > self.simulatedopcount && !self.nosizechecks),
    {
        self.steps > self.simulatedopcount && !self.nosizechecks
    }

    /// Judges the size that the file was found to have.
    pub fn check_size(&self, size: u64) -> (r: Result<(), Failure>)
        requires
            self.wf(),
            !self.nosizechecks && size != self.file_size ==> self.dumps(),
        ensures
            check_view(r) == if !self.nosizechecks && size != self.file_size {
                Err(
                    self.failure(
                        seq![
                            "Size error: expected "@ + hex_0x(self.file_size as nat) + " but found "@
                                + hex_0x(size as nat) + " by stat"@,
                        ],
                        "size check failed"@,
                    ),
                )
            } else {
                Ok(())
            },
    {
        if !self.nosizechecks && size != self.file_size {
            let mut line = "Size error: expected ".to_string();
            push_hex_0x(&mut line, self.file_size, 0);
            line.append(" but found ");
            push_hex_0x(&mut line, size, 0);
            line.append(" by stat");
            return Err(self.fail_short(line, "size check failed"));
        }
        Ok(())
    }
}

} // verus!
