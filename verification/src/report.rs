//! Reports: the records of a run, how they are written and how they are read.

use vstd::prelude::*;
use vstd::string::*;
use vstd::utf8::*;

use crate::codec::{
    le_bytes, op_bytes, result_bytes, sized_bytes, var_bytes, write_op_result, write_string,
    write_u32, write_u64, write_u8, write_var_u64, Input, Source,
};
use crate::gzip::{gz_decode, gz_decoded, gz_encode, gz_encoded};
use crate::ops::{FileId, Op};
use crate::paths::{has_gz, has_gz_extension, same_parts, same_path};
use crate::result::{OpResult, OpResultView, OracleErr};
use crate::text::{dec, pad_left, push_dec_padded, same_bytes};

verus! {

/// The bytes with which a report begins.
pub open spec fn report_magic() -> Seq<u8> {
    seq![70, 83, 88, 79, 82, 66, 50, 0]
}

pub const REPORT_VERSION: u32 = 1;

/// What a file held when a case ended.
#[derive(Debug)]
pub struct FileSnapshot {
    pub case_id: usize,
    pub file: FileId,
    pub rel: String,
    pub exists: bool,
    pub len: u64,
    pub hash: u64,
}

#[verifier::ext_equal]
pub struct SnapshotView {
    pub case_id: usize,
    pub file: FileId,
    pub rel: Seq<char>,
    pub exists: bool,
    pub len: u64,
    pub hash: u64,
}

impl View for FileSnapshot {
    type V = SnapshotView;

    open spec fn view(&self) -> SnapshotView {
        SnapshotView {
            case_id: self.case_id,
            file: self.file,
            rel: self.rel@,
            exists: self.exists,
            len: self.len,
            hash: self.hash,
        }
    }
}

/// A record of a report, in the form in which two reports are compared.
#[derive(Debug, PartialEq, Eq)]
pub enum ComparableRecord {
    Case { case_id: u64, mask: u64 },
    Result { step: u32, worker: u32, op: Op, rc: i64, err: OracleErr, data: Vec<u8> },
    Snapshot { case_id: u64, file: FileId, rel: String, exists: bool, len: u64, hash: u64 },
    End { cases: u64 },
}

#[verifier::ext_equal]
pub enum RecordView {
    Case { case_id: u64, mask: u64 },
    Result { step: u32, worker: u32, op: Op, rc: i64, err: OracleErr, data: Seq<u8> },
    Snapshot { case_id: u64, file: FileId, rel: Seq<char>, exists: bool, len: u64, hash: u64 },
    End { cases: u64 },
}

impl View for ComparableRecord {
    type V = RecordView;

    open spec fn view(&self) -> RecordView {
        match *self {
            ComparableRecord::Case { case_id, mask } => RecordView::Case { case_id, mask },
            ComparableRecord::Result { step, worker, op, rc, err, data } => RecordView::Result {
                step,
                worker,
                op,
                rc,
                err,
                data: data@,
            },
            ComparableRecord::Snapshot { case_id, file, rel, exists, len, hash } => RecordView::Snapshot {
                case_id,
                file,
                rel: rel@,
                exists,
                len,
                hash,
            },
            ComparableRecord::End { cases } => RecordView::End { cases },
        }
    }
}

impl Clone for ComparableRecord {
    fn clone(&self) -> (r: Self)
        ensures
            r@ == self@,
    {
        match self {
            ComparableRecord::Case { case_id, mask } => ComparableRecord::Case {
                case_id: *case_id,
                mask: *mask,
            },
            ComparableRecord::Result { step, worker, op, rc, err, data } => {
                let copy = data.clone();
                assert(copy@ =~= data@);
                ComparableRecord::Result {
                    step: *step,
                    worker: *worker,
                    op: *op,
                    rc: *rc,
                    err: *err,
                    data: copy,
                }
            },
            ComparableRecord::Snapshot { case_id, file, rel, exists, len, hash } => {
                ComparableRecord::Snapshot {
                    case_id: *case_id,
                    file: *file,
                    rel: rel.clone(),
                    exists: *exists,
                    len: *len,
                    hash: *hash,
                }
            },
            ComparableRecord::End { cases } => ComparableRecord::End { cases: *cases },
        }
    }
}

pub open spec fn record_views(records: Seq<ComparableRecord>) -> Seq<RecordView> {
    records.map_values(|r: ComparableRecord| r@)
}

pub open spec fn snapshot_views(snapshots: Seq<FileSnapshot>) -> Seq<SnapshotView> {
    snapshots.map_values(|s: FileSnapshot| s@)
}

/// Whether two records say the same. Paths say the same where their components do.
pub open spec fn same_record(a: RecordView, b: RecordView) -> bool {
    match (a, b) {
        (
            RecordView::Snapshot { case_id, file, rel, exists, len, hash },
            RecordView::Snapshot {
                case_id: case_id2,
                file: file2,
                rel: rel2,
                exists: exists2,
                len: len2,
                hash: hash2,
            },
        ) => {
            &&& case_id == case_id2
            &&& file == file2
            &&& same_parts(rel, rel2)
            &&& exists == exists2
            &&& len == len2
            &&& hash == hash2
        },
        _ => a == b,
    }
}

impl ComparableRecord {
    pub fn same_as(&self, other: &ComparableRecord) -> (r: bool)
        ensures
            r == same_record(self@, other@),
    {
        match (self, other) {
            (
                ComparableRecord::Case { case_id, mask },
                ComparableRecord::Case { case_id: case_id2, mask: mask2 },
            ) => *case_id == *case_id2 && *mask == *mask2,
            (
                ComparableRecord::Result { step, worker, op, rc, err, data },
                ComparableRecord::Result {
                    step: step2,
                    worker: worker2,
                    op: op2,
                    rc: rc2,
                    err: err2,
                    data: data2,
                },
            ) => *step == *step2 && *worker == *worker2 && *op == *op2 && *rc == *rc2 && *err
                == *err2 && same_bytes(data.as_slice(), data2.as_slice()),
            (
                ComparableRecord::Snapshot { case_id, file, rel, exists, len, hash },
                ComparableRecord::Snapshot {
                    case_id: case_id2,
                    file: file2,
                    rel: rel2,
                    exists: exists2,
                    len: len2,
                    hash: hash2,
                },
            ) => *case_id == *case_id2 && *file == *file2 && same_path(
                rel.as_str(),
                rel2.as_str(),
            ) && *exists == *exists2 && *len == *len2 && *hash == *hash2,
            (ComparableRecord::End { cases }, ComparableRecord::End { cases: cases2 }) => *cases
                == *cases2,
            _ => false,
        }
    }
}

/// The directory of a case.
pub open spec fn case_name_text(case_id: nat) -> Seq<char> {
    "case-"@ + pad_left(dec(case_id), 6, '0')
}

pub fn case_name(case_id: u64) -> (s: String)
    ensures
        s@ == case_name_text(case_id as nat),
{
    let mut s = "case-".to_string();
    push_dec_padded(&mut s, case_id, 6);
    s
}

/// The operations of `chain`, one after the other.
pub open spec fn chain_bytes(chain: Seq<Op>) -> Seq<u8>
    decreases chain.len(),
{
    if chain.len() == 0 {
        Seq::empty()
    } else {
        chain_bytes(chain.drop_last()) + op_bytes(chain.last())
    }
}

/// One thing that a run tells the sinks of its report.
pub enum Entry {
    Case { case_id: usize, mask: usize, chain: Seq<Op> },
    Step { step: usize, worker: usize, op: Op },
    Result { step: usize, worker: usize, op: Op, result: OpResultView },
    Snapshot { snapshot: SnapshotView },
}

/// The form of an entry in a report. Steps leave no trace.
pub open spec fn entry_bytes(entry: Entry) -> Seq<u8> {
    match entry {
        Entry::Case { case_id, mask, chain } => seq![1u8] + var_bytes(case_id as nat) + var_bytes(
            mask as nat,
        ) + chain_bytes(chain),
        Entry::Step { .. } => Seq::empty(),
        Entry::Result { result, .. } => seq![2u8] + result_bytes(result),
        Entry::Snapshot { snapshot } => seq![
            3u8,
            snapshot.file.tag_value(),
            if snapshot.exists {
                1u8
            } else {
                0u8
            },
        ] + if snapshot.exists {
            var_bytes(snapshot.len as nat) + le_bytes(snapshot.hash as nat, 8)
        } else {
            Seq::empty()
        },
    }
}

/// The record that an entry makes; steps make none.
pub open spec fn entry_record(entry: Entry) -> Option<RecordView> {
    match entry {
        Entry::Case { case_id, mask, .. } => Some(
            RecordView::Case { case_id: case_id as u64, mask: mask as u64 },
        ),
        Entry::Step { .. } => None,
        Entry::Result { step, worker, op, result } => Some(
            RecordView::Result {
                step: step as u32,
                worker: worker as u32,
                op,
                rc: result.rc,
                err: result.err,
                data: result.data,
            },
        ),
        Entry::Snapshot { snapshot } => Some(
            RecordView::Snapshot {
                case_id: snapshot.case_id as u64,
                file: snapshot.file,
                rel: snapshot.rel,
                exists: snapshot.exists,
                len: snapshot.len,
                hash: snapshot.hash,
            },
        ),
    }
}

/// The end of a report.
pub open spec fn end_bytes(cases: nat) -> Seq<u8> {
    seq![4u8] + var_bytes(cases)
}

pub open spec fn header_bytes(chain_len: nat, run: Seq<char>) -> Seq<u8> {
    report_magic() + le_bytes(REPORT_VERSION as nat, 4) + le_bytes(chain_len, 8) + sized_bytes(
        encode_utf8(run),
    )
}

/// What takes in the entries of a run.
pub trait ReportSink: Sized {
    /// Whether `after` is `self` once it has taken in `entry`.
    spec fn took(self, entry: Entry, after: Self) -> bool;

    fn case(&mut self, case_id: usize, mask: usize, chain: &[Op])
        ensures
            old(self).took(Entry::Case { case_id, mask, chain: chain@ }, *final(self)),
    ;

    fn step(&mut self, step: usize, worker: usize, op: Op)
        ensures
            old(self).took(Entry::Step { step, worker, op }, *final(self)),
    ;

    fn result(&mut self, step: usize, worker: usize, op: Op, result: &OpResult)
        ensures
            old(self).took(Entry::Result { step, worker, op, result: result@ }, *final(self)),
    ;

    fn snapshot(&mut self, snapshot: &FileSnapshot)
        ensures
            old(self).took(Entry::Snapshot { snapshot: snapshot@ }, *final(self)),
    ;
}

/// A report in the making: the bytes so far, and whether its file is compressed.
pub struct ReportWriter {
    pub bytes: Vec<u8>,
    pub compressed: bool,
}

impl ReportWriter {
    /// A report that is to stand at `path`; one that ends in `.gz` is compressed.
    pub fn create(path: &str, chain_len: usize, run: &str) -> (w: Self)
        ensures
            w.bytes@ == header_bytes(chain_len as nat, run@),
            w.compressed == has_gz_extension(path@),
    {
        let mut bytes: Vec<u8> = vec![70, 83, 88, 79, 82, 66, 50, 0];
        assert(bytes@ =~= report_magic());
        write_u32(&mut bytes, REPORT_VERSION);
        write_u64(&mut bytes, chain_len as u64);
        write_string(&mut bytes, run);
        ReportWriter { bytes, compressed: has_gz(path) }
    }

    /// The contents of the report's file.
    pub fn file_bytes(&self) -> (out: Vec<u8>)
        ensures
            self.compressed ==> {
                &&& out@ == gz_encoded(self.bytes@)
                &&& gz_decoded(out@) == (self.bytes@, None::<Seq<char>>)
                &&& is_gzip(out@)
            },
            !self.compressed ==> out@ == self.bytes@,
    {
        if self.compressed {
            gz_encode(self.bytes.as_slice())
        } else {
            let out = self.bytes.clone();
            assert(out@ =~= self.bytes@);
            out
        }
    }

    pub fn case(&mut self, case_id: usize, mask: usize, chain: &[Op])
        ensures
            final(self).compressed == old(self).compressed,
            final(self).bytes@ == old(self).bytes@ + entry_bytes(
                Entry::Case { case_id, mask, chain: chain@ },
            ),
    {
        write_u8(&mut self.bytes, 1);
        write_var_u64(&mut self.bytes, case_id as u64);
        write_var_u64(&mut self.bytes, mask as u64);
        let ghost head = self.bytes@;
        let mut i: usize = 0;
        assert(self.bytes@ =~= head + chain_bytes(chain@.take(0)));
        while i < chain.len()
            invariant
                i <= chain@.len(),
                self.compressed == old(self).compressed,
                self.bytes@ == head + chain_bytes(chain@.take(i as int)),
            decreases chain@.len() - i,
        {
            let op = chain[i];
            op.write_to(&mut self.bytes);
            assert(chain@.take(i as int + 1).drop_last() =~= chain@.take(i as int));
            i = i + 1;
            assert(self.bytes@ =~= head + chain_bytes(chain@.take(i as int)));
        }
        assert(chain@.take(i as int) =~= chain@);
        assert(self.bytes@ =~= old(self).bytes@ + entry_bytes(
            Entry::Case { case_id, mask, chain: chain@ },
        ));
    }

    pub fn step(&mut self, step: usize, worker: usize, op: Op)
        ensures
            *final(self) == *old(self),
    {
    }

    pub fn result(&mut self, step: usize, worker: usize, op: Op, result: &OpResult)
        ensures
            final(self).compressed == old(self).compressed,
            final(self).bytes@ == old(self).bytes@ + entry_bytes(
                Entry::Result { step, worker, op, result: result@ },
            ),
    {
        write_u8(&mut self.bytes, 2);
        write_op_result(&mut self.bytes, result);
        assert(self.bytes@ =~= old(self).bytes@ + entry_bytes(
            Entry::Result { step, worker, op, result: result@ },
        ));
    }

    pub fn snapshot(&mut self, snapshot: &FileSnapshot)
        ensures
            final(self).compressed == old(self).compressed,
            final(self).bytes@ == old(self).bytes@ + entry_bytes(
                Entry::Snapshot { snapshot: snapshot@ },
            ),
    {
        write_u8(&mut self.bytes, 3);
        write_u8(&mut self.bytes, snapshot.file.tag());
        write_u8(
            &mut self.bytes,
            if snapshot.exists {
                1
            } else {
                0
            },
        );
        if snapshot.exists {
            write_var_u64(&mut self.bytes, snapshot.len);
            write_u64(&mut self.bytes, snapshot.hash);
        }
        assert(self.bytes@ =~= old(self).bytes@ + entry_bytes(
            Entry::Snapshot { snapshot: snapshot@ },
        ));
    }

    pub fn end(&mut self, cases: usize)
        ensures
            final(self).compressed == old(self).compressed,
            final(self).bytes@ == old(self).bytes@ + end_bytes(cases as nat),
    {
        write_u8(&mut self.bytes, 4);
        write_var_u64(&mut self.bytes, cases as u64);
        assert(self.bytes@ =~= old(self).bytes@ + end_bytes(cases as nat));
    }
}

impl ReportSink for ReportWriter {
    open spec fn took(self, entry: Entry, after: Self) -> bool {
        &&& after.compressed == self.compressed
        &&& after.bytes@ == self.bytes@ + entry_bytes(entry)
    }

    fn case(&mut self, case_id: usize, mask: usize, chain: &[Op]) {
        ReportWriter::case(self, case_id, mask, chain);
    }

    fn step(&mut self, step: usize, worker: usize, op: Op) {
        ReportWriter::step(self, step, worker, op);
        assert(self.bytes@ =~= old(self).bytes@ + entry_bytes(Entry::Step { step, worker, op }));
    }

    fn result(&mut self, step: usize, worker: usize, op: Op, result: &OpResult) {
        ReportWriter::result(self, step, worker, op, result);
    }

    fn snapshot(&mut self, snapshot: &FileSnapshot) {
        ReportWriter::snapshot(self, snapshot);
    }
}

/// The records of a case, kept in memory.
pub struct MemoryCaseRecorder {
    pub records: Vec<ComparableRecord>,
}

impl MemoryCaseRecorder {
    pub fn new() -> (m: Self)
        ensures
            m.records@ == Seq::<ComparableRecord>::empty(),
    {
        MemoryCaseRecorder { records: Vec::new() }
    }
}

impl ReportSink for MemoryCaseRecorder {
    open spec fn took(self, entry: Entry, after: Self) -> bool {
        record_views(after.records@) == match entry_record(entry) {
            Some(record) => record_views(self.records@).push(record),
            None => record_views(self.records@),
        }
    }

    fn case(&mut self, case_id: usize, mask: usize, chain: &[Op]) {
        let ghost before = self.records@;
        self.records.push(ComparableRecord::Case { case_id: case_id as u64, mask: mask as u64 });
        assert(record_views(self.records@) =~= record_views(before).push(self.records@.last()@));
    }

    fn step(&mut self, step: usize, worker: usize, op: Op) {
    }

    fn result(&mut self, step: usize, worker: usize, op: Op, result: &OpResult) {
        let ghost before = self.records@;
        let data = result.data.clone();
        assert(data@ =~= result.data@);
        self.records.push(
            ComparableRecord::Result {
                step: step as u32,
                worker: worker as u32,
                op,
                rc: result.rc,
                err: result.err,
                data,
            },
        );
        assert(record_views(self.records@) =~= record_views(before).push(self.records@.last()@));
    }

    fn snapshot(&mut self, snapshot: &FileSnapshot) {
        let ghost before = self.records@;
        self.records.push(
            ComparableRecord::Snapshot {
                case_id: snapshot.case_id as u64,
                file: snapshot.file,
                rel: snapshot.rel.clone(),
                exists: snapshot.exists,
                len: snapshot.len,
                hash: snapshot.hash,
            },
        );
        assert(record_views(self.records@) =~= record_views(before).push(self.records@.last()@));
    }
}

/// A report and the records of its current case, filled together.
pub struct TeeReportSink {
    pub report: ReportWriter,
    pub memory: MemoryCaseRecorder,
}

impl ReportSink for TeeReportSink {
    open spec fn took(self, entry: Entry, after: Self) -> bool {
        &&& self.report.took(entry, after.report)
        &&& self.memory.took(entry, after.memory)
    }

    fn case(&mut self, case_id: usize, mask: usize, chain: &[Op]) {
        ReportSink::case(&mut self.report, case_id, mask, chain);
        self.memory.case(case_id, mask, chain);
    }

    fn step(&mut self, step: usize, worker: usize, op: Op) {
        ReportSink::step(&mut self.report, step, worker, op);
        self.memory.step(step, worker, op);
    }

    fn result(&mut self, step: usize, worker: usize, op: Op, result: &OpResult) {
        ReportSink::result(&mut self.report, step, worker, op, result);
        self.memory.result(step, worker, op, result);
    }

    fn snapshot(&mut self, snapshot: &FileSnapshot) {
        ReportSink::snapshot(&mut self.report, snapshot);
        self.memory.snapshot(snapshot);
    }
}

/// Whether a file's bytes begin as a gzip stream does.
pub open spec fn is_gzip(bytes: Seq<u8>) -> bool {
    bytes.len() >= 2 && bytes[0] == 0x1f && bytes[1] == 0x8b
}

/// The stream of bytes that the file of a report holds.
pub open spec fn report_input(file: Seq<u8>) -> Input {
    if is_gzip(file) {
        Input { rest: gz_decoded(file).0, fault: gz_decoded(file).1 }
    } else {
        Input { rest: file, fault: None }
    }
}

pub fn open_report_reader(file: Vec<u8>) -> (s: Source)
    ensures
        s.wf(),
        s.input() == report_input(file@),
{
    if file.len() >= 2 && file[0] == 0x1f && file[1] == 0x8b {
        let (bytes, fault) = gz_decode(file.as_slice());
        let s = Source { bytes, pos: 0, fault };
        assert(s.input().rest =~= bytes@);
        s
    } else {
        Source::new(file)
    }
}

} // verus!
