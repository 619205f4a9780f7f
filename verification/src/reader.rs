//! Reading a report, record by record.

use vstd::prelude::*;
use vstd::string::*;

use crate::codec::{
    parse_file, parse_groups, parse_op, parse_record_tag, parse_result, parse_string, parse_u32,
    parse_u64, parse_u8, parse_var_u64, read_op_result, read_record_tag, read_string, read_u32,
    read_u64, read_u8, read_var_u64, Input, Parsed, Source,
};
use crate::ops::{FileId, Op, WORKERS};
use crate::report::{
    case_name, case_name_text, open_report_reader, record_views, report_input, report_magic, snapshot_views,
    ComparableRecord, FileSnapshot, RecordView, SnapshotView, REPORT_VERSION,
};
use crate::schedule::{scheduled_steps, steps_of, ScheduledStep, Scheduler};
use crate::text::{dec, push_dec, same_bytes};

verus! {

/// Where a reader stands: what is left of the stream, and the case it is in.
#[verifier::ext_equal]
pub struct ReaderView {
    pub input: Input,
    pub chain_len: usize,
    pub case_id: u64,
    pub name: Seq<char>,
    pub chain: Seq<Op>,
    pub steps: Seq<ScheduledStep>,
    pub idx: nat,
}

/// The chain length and the run that the header of a report gives.
pub open spec fn parse_header(input: Input, path: Seq<char>) -> Parsed<(usize, Seq<char>)> {
    if input.rest.len() < 8 {
        (
            Err("failed to read "@ + path + " header: "@ + input.end_text()),
            input.at(Seq::empty()),
        )
    } else {
        let i1 = input.at(input.rest.skip(8));
        if input.rest.take(8) != report_magic() {
            (Err(path + " is not an oracle binary report"@), i1)
        } else {
            match parse_u32(i1) {
                (Err(e), i2) => (Err(e), i2),
                (Ok(version), i2) => if version != REPORT_VERSION {
                    (
                        Err(
                            path + " has unsupported oracle report version "@ + dec(version as nat),
                        ),
                        i2,
                    )
                } else {
                    match parse_u64(i2) {
                        (Err(e), i3) => (Err(e), i3),
                        (Ok(len), i3) => match parse_string(i3) {
                            (Err(e), i4) => (Err(e), i4),
                            (Ok(run), i4) => (Ok((len as usize, run)), i4),
                        },
                    }
                },
            }
        }
    }
}

/// The next `n` operations.
pub open spec fn parse_chain(input: Input, n: nat) -> Parsed<Seq<Op>>
    decreases n,
{
    if n == 0 {
        (Ok(Seq::empty()), input)
    } else {
        match parse_chain(input, (n - 1) as nat) {
            (Ok(chain), i1) => match parse_op(i1) {
                (Ok(op), i2) => (Ok(chain.push(op)), i2),
                (Err(e), i2) => (Err(e), i2),
            },
            (Err(e), i1) => (Err(e), i1),
        }
    }
}

/// A record, the snapshot that it holds, and where the reader stands after it.
pub type NextRecord = (RecordView, Option<SnapshotView>, ReaderView);

pub open spec fn next_case(v: ReaderView) -> Result<NextRecord, Seq<char>> {
    match parse_var_u64(v.input) {
        (Err(e), _) => Err(e),
        (Ok(case_id), i1) => match parse_var_u64(i1) {
            (Err(e), _) => Err(e),
            (Ok(mask), i2) => match parse_chain(i2, v.chain_len as nat) {
                (Err(e), _) => Err(e),
                (Ok(chain), i3) => Ok(
                    (
                        RecordView::Case { case_id, mask: mask as usize as u64 },
                        None,
                        ReaderView {
                            input: i3,
                            chain_len: v.chain_len,
                            case_id,
                            name: case_name_text(case_id as nat),
                            chain,
                            steps: steps_of(WORKERS as nat, chain, mask as usize as nat),
                            idx: 0,
                        },
                    ),
                ),
            },
        },
    }
}

pub open spec fn next_result(path: Seq<char>, v: ReaderView) -> Result<NextRecord, Seq<char>> {
    if v.idx >= v.steps.len() {
        Err(path + " has more result records than steps for case "@ + dec(v.case_id as nat))
    } else {
        match parse_result(v.input) {
            (Err(e), _) => Err(e),
            (Ok(result), i1) => Ok(
                (
                    RecordView::Result {
                        step: (v.idx + 1) as u32,
                        worker: v.steps[v.idx as int].worker as u32,
                        op: v.steps[v.idx as int].op,
                        rc: result.rc,
                        err: result.err,
                        data: result.data,
                    },
                    None,
                    ReaderView { input: i1, idx: v.idx + 1, ..v },
                ),
            ),
        }
    }
}

pub open spec fn snapshot_read(
    v: ReaderView,
    file: FileId,
    exists: bool,
    len: u64,
    hash: u64,
    input: Input,
) -> NextRecord {
    let rel = v.name + "/"@ + file.name_text();
    (
        RecordView::Snapshot { case_id: v.case_id, file, rel, exists, len, hash },
        Some(SnapshotView { case_id: v.case_id as usize, file, rel, exists, len, hash }),
        ReaderView { input, ..v },
    )
}

pub open spec fn next_snapshot(v: ReaderView) -> Result<NextRecord, Seq<char>> {
    match parse_file(v.input) {
        (Err(e), _) => Err(e),
        (Ok(file), i1) => match parse_u8(i1) {
            (Err(e), _) => Err(e),
            (Ok(exists), i2) => if exists == 0 {
                Ok(snapshot_read(v, file, false, 0, 0, i2))
            } else {
                match parse_var_u64(i2) {
                    (Err(e), _) => Err(e),
                    (Ok(len), i3) => match parse_u64(i3) {
                        (Err(e), _) => Err(e),
                        (Ok(hash), i4) => Ok(snapshot_read(v, file, true, len, hash, i4)),
                    },
                }
            },
        },
    }
}

pub open spec fn next_end(v: ReaderView) -> Result<NextRecord, Seq<char>> {
    match parse_var_u64(v.input) {
        (Err(e), _) => Err(e),
        (Ok(cases), i1) => Ok((RecordView::End { cases }, None, ReaderView { input: i1, ..v })),
    }
}

/// The next record of a report, or nothing where the report is at its end.
#[verifier::opaque]
pub open spec fn next_record(path: Seq<char>, v: ReaderView) -> Result<
    Option<NextRecord>,
    Seq<char>,
> {
    match parse_record_tag(v.input) {
        (Err(e), _) => Err(e),
        (Ok(None), _) => Ok(None),
        (Ok(Some(tag)), after) => {
            let v1 = ReaderView { input: after, ..v };
            let next = if tag == 1 {
                next_case(v1)
            } else if tag == 2 {
                next_result(path, v1)
            } else if tag == 3 {
                next_snapshot(v1)
            } else if tag == 4 {
                next_end(v1)
            } else {
                Err(path + " has invalid record tag "@ + dec(tag as nat))
            };
            match next {
                Ok(n) => Ok(Some(n)),
                Err(e) => Err(e),
            }
        },
    }
}

proof fn lemma_groups_shrink(input: Input, k: nat, sum: nat)
    ensures
        parse_groups(input, k, sum).1.rest.len() <= input.rest.len(),
        parse_groups(input, k, sum).0 is Ok ==> parse_groups(input, k, sum).1.rest.len()
            < input.rest.len(),
    decreases 10 - k,
{
    if k < 9 {
        match parse_u8(input) {
            (Ok(byte), after) => {
                lemma_groups_shrink(after, k + 1, sum + (byte % 128) as nat * crate::codec::group_weight(k));
            },
            (Err(_), _) => {},
        }
    }
}

proof fn lemma_var_shrinks(input: Input)
    ensures
        parse_var_u64(input).1.rest.len() <= input.rest.len(),
{
    lemma_groups_shrink(input, 0, 0);
}

proof fn lemma_op_shrinks(input: Input)
    ensures
        parse_op(input).1.rest.len() <= input.rest.len(),
{
}

proof fn lemma_chain_shrinks(input: Input, n: nat)
    ensures
        parse_chain(input, n).1.rest.len() <= input.rest.len(),
    decreases n,
{
    if n > 0 {
        lemma_chain_shrinks(input, (n - 1) as nat);
        lemma_op_shrinks(parse_chain(input, (n - 1) as nat).1);
    }
}

proof fn lemma_result_shrinks(input: Input)
    ensures
        parse_result(input).1.rest.len() <= input.rest.len(),
{
    let (tag, after) = parse_u8(input);
    lemma_var_shrinks(after);
}

/// Reading a record uses up at least its tag.
pub proof fn lemma_record_shrinks(path: Seq<char>, v: ReaderView)
    ensures
        next_record(path, v) matches Ok(Some(n)) ==> n.2.input.rest.len() < v.input.rest.len(),
{
    reveal(next_record);
    let (tag, after) = parse_record_tag(v.input);
    if tag matches Ok(Some(_)) {
        lemma_var_shrinks(after);
        let i1 = parse_var_u64(after).1;
        lemma_var_shrinks(i1);
        let i2 = parse_var_u64(i1).1;
        lemma_chain_shrinks(i2, v.chain_len as nat);
        lemma_result_shrinks(after);
        let j1 = parse_file(after).1;
        assert(j1.rest.len() <= after.rest.len());
        let j2 = parse_u8(j1).1;
        assert(j2.rest.len() <= j1.rest.len());
        lemma_var_shrinks(j2);
        let j3 = parse_var_u64(j2).1;
        assert(parse_u64(j3).1.rest.len() <= j3.rest.len());
    }
}

/// Everything that is left of a report: its records and the snapshots among them.
pub open spec fn rest_of_report(path: Seq<char>, v: ReaderView) -> Result<
    (Seq<RecordView>, Seq<SnapshotView>),
    Seq<char>,
>
    decreases v.input.rest.len(),
    via rest_of_report_decreases
{
    match next_record(path, v) {
        Err(e) => Err(e),
        Ok(None) => Ok((Seq::empty(), Seq::empty())),
        Ok(Some((record, snapshot, after))) => match rest_of_report(path, after) {
            Err(e) => Err(e),
            Ok((records, snapshots)) => Ok(
                (
                    seq![record] + records,
                    match snapshot {
                        Some(s) => seq![s] + snapshots,
                        None => snapshots,
                    },
                ),
            ),
        },
    }
}

#[via_fn]
proof fn rest_of_report_decreases(path: Seq<char>, v: ReaderView) {
    lemma_record_shrinks(path, v);
}

/// A reader that has read the header of the report at `path`.
pub open spec fn opened(input: Input, chain_len: usize) -> ReaderView {
    ReaderView {
        input,
        chain_len,
        case_id: 0,
        name: Seq::empty(),
        chain: Seq::empty(),
        steps: Seq::empty(),
        idx: 0,
    }
}

pub struct ReportReader {
    pub path: String,
    pub source: Source,
    pub chain_len: usize,
    pub run: String,
    pub current_case_id: u64,
    pub current_case_name: String,
    pub current_chain: Vec<Op>,
    pub current_steps: Vec<ScheduledStep>,
    pub current_step_idx: usize,
}

/// The chain length and the run that the header of a report gives.
pub fn read_report_header(reader: &mut Source, path: &str) -> (r: Result<(usize, String), String>)
    requires
        old(reader).wf(),
    ensures
        final(reader).wf(),
        ({
            let (parsed, after) = parse_header(old(reader).input(), path@);
            &&& final(reader).input() == after
            &&& r matches Ok((len, run)) ==> parsed == Ok::<(usize, Seq<char>), Seq<char>>((len, run@))
            &&& r matches Err(e) ==> parsed == Err::<(usize, Seq<char>), Seq<char>>(e@)
        }),
{
    let magic = match reader.take_exact(8) {
        Ok(magic) => magic,
        Err(e) => {
            return Err(
                "failed to read ".to_string().concat(path).concat(" header: ").concat(e.as_str()),
            );
        },
    };
    let expected: Vec<u8> = vec![70, 83, 88, 79, 82, 66, 50, 0];
    assert(expected@ =~= report_magic());
    if !same_bytes(magic.as_slice(), expected.as_slice()) {
        return Err(path.to_string().concat(" is not an oracle binary report"));
    }
    let version: u32 = read_u32(reader)?;
    if version != REPORT_VERSION {
        let mut e = path.to_string().concat(" has unsupported oracle report version ");
        push_dec(&mut e, version as u64);
        return Err(e);
    }
    let chain_len: u64 = read_u64(reader)?;
    let run = read_string(reader)?;
    Ok((chain_len as usize, run))
}

/// What reading a record gave, by views.
pub open spec fn read_views(
    r: Result<Option<(ComparableRecord, Option<FileSnapshot>)>, String>,
    after: ReaderView,
) -> Result<Option<NextRecord>, Seq<char>> {
    match r {
        Err(e) => Err(e@),
        Ok(None) => Ok(None),
        Ok(Some((record, snapshot))) => Ok(Some(one_view((record, snapshot), after))),
    }
}

pub open spec fn one_view(
    r: (ComparableRecord, Option<FileSnapshot>),
    after: ReaderView,
) -> NextRecord {
    (
        r.0@,
        match r.1 {
            Some(s) => Some(s@),
            None => None,
        },
        after,
    )
}

pub open spec fn one_views(
    r: Result<(ComparableRecord, Option<FileSnapshot>), String>,
    after: ReaderView,
) -> Result<NextRecord, Seq<char>> {
    match r {
        Err(e) => Err(e@),
        Ok(one) => Ok(one_view(one, after)),
    }
}

impl ReportReader {
    pub open spec fn wf(&self) -> bool {
        &&& self.source.wf()
        &&& self.current_step_idx <= self.current_steps@.len()
    }

    pub open spec fn view(&self) -> ReaderView {
        ReaderView {
            input: self.source.input(),
            chain_len: self.chain_len,
            case_id: self.current_case_id,
            name: self.current_case_name@,
            chain: self.current_chain@,
            steps: self.current_steps@,
            idx: self.current_step_idx as nat,
        }
    }

    /// A reader on the report that stands at `path` and whose file holds `file`.
    pub fn open(path: &str, file: Vec<u8>) -> (r: Result<Self, String>)
        ensures
            ({
                let (parsed, after) = parse_header(report_input(file@), path@);
                &&& r is Ok <==> parsed is Ok
                &&& r matches Ok(reader) ==> {
                    &&& reader.wf()
                    &&& reader.path@ == path@
                    &&& parsed == Ok::<(usize, Seq<char>), Seq<char>>((reader.chain_len, reader.run@))
                    &&& reader@ == opened(after, reader.chain_len)
                }
                &&& r matches Err(e) ==> parsed == Err::<(usize, Seq<char>), Seq<char>>(e@)
            }),
    {
        let mut source = open_report_reader(file);
        let (chain_len, run) = read_report_header(&mut source, path)?;
        let reader = ReportReader {
            path: path.to_string(),
            source,
            chain_len,
            run,
            current_case_id: 0,
            current_case_name: String::new(),
            current_chain: Vec::new(),
            current_steps: Vec::new(),
            current_step_idx: 0,
        };
        assert(reader@ =~= opened(reader.source.input(), chain_len));
        Ok(reader)
    }

    /// The next record, and the snapshot where it is one; nothing at the end.
    pub fn read_record(&mut self) -> (r: Result<
        Option<(ComparableRecord, Option<FileSnapshot>)>,
        String,
    >)
        requires
            old(self).wf(),
        ensures
            final(self).wf(),
            final(self).path == old(self).path,
            final(self).run == old(self).run,
            final(self).chain_len == old(self).chain_len,
            read_views(r, final(self)@) == next_record(old(self).path@, old(self)@),
            r matches Ok(Some(_)) ==> final(self)@.input.rest.len() < old(self)@.input.rest.len(),
    {
        reveal(next_record);
        let tag: u8 = match read_record_tag(&mut self.source) {
            Err(e) => {
                return Err(e);
            },
            Ok(None) => {
                return Ok(None);
            },
            Ok(Some(tag)) => tag,
        };
        proof {
            lemma_record_shrinks(old(self).path@, old(self)@);
        }
        let ghost v1 = self@;
        assert(v1 =~= (ReaderView { input: v1.input, ..old(self)@ }));
        let one = match tag {
            1 => self.read_case_record(),
            2 => self.read_result_record(),
            3 => self.read_snapshot_record(),
            4 => match read_var_u64(&mut self.source) {
                Ok(cases) => {
                    assert(self@ =~= (ReaderView { input: self@.input, ..v1 }));
                    Ok((ComparableRecord::End { cases }, None))
                },
                Err(e) => Err(e),
            },
            _ => {
                let mut e = self.path.clone().concat(" has invalid record tag ");
                push_dec(&mut e, tag as u64);
                Err(e)
            },
        };
        match one {
            Ok(one) => Ok(Some(one)),
            Err(e) => Err(e),
        }
    }

    pub fn read_case_record(&mut self) -> (r: Result<
        (ComparableRecord, Option<FileSnapshot>),
        String,
    >)
        requires
            old(self).wf(),
        ensures
            final(self).wf(),
            final(self).path == old(self).path,
            final(self).run == old(self).run,
            final(self).chain_len == old(self).chain_len,
            one_views(r, final(self)@) == next_case(old(self)@),
    {
        let case_id: u64 = read_var_u64(&mut self.source)?;
        let mask: usize = read_var_u64(&mut self.source)? as usize;
        let ghost start = self.source.input();
        let mut chain: Vec<Op> = Vec::new();
        let mut i: usize = 0;
        assert(chain@ =~= Seq::empty());
        while i < self.chain_len
            invariant
                i <= self.chain_len,
                self.source.wf(),
                self.current_step_idx <= self.current_steps@.len(),
                self.path == old(self).path,
                self.run == old(self).run,
                self.chain_len == old(self).chain_len,
                parse_chain(start, i as nat) == (Ok::<Seq<Op>, Seq<char>>(chain@), self.source.input()),
                next_case(old(self)@) == match parse_chain(start, self.chain_len as nat) {
                    (Err(e), _) => Err(e),
                    (Ok(ops), i3) => Ok(
                        (
                            RecordView::Case { case_id, mask: mask as u64 },
                            None::<SnapshotView>,
                            ReaderView {
                                input: i3,
                                chain_len: self.chain_len,
                                case_id,
                                name: case_name_text(case_id as nat),
                                chain: ops,
                                steps: steps_of(WORKERS as nat, ops, mask as nat),
                                idx: 0,
                            },
                        ),
                    ),
                },
            decreases self.chain_len - i,
        {
            match Op::read_from(&mut self.source) {
                Ok(op) => {
                    chain.push(op);
                },
                Err(e) => {
                    proof {
                        lemma_chain_fails(start, (i + 1) as nat, self.chain_len as nat);
                    }
                    return Err(e);
                },
            }
            i = i + 1;
        }
        self.current_case_id = case_id;
        self.current_case_name = case_name(case_id);
        let scheduler = Scheduler::new(WORKERS);
        self.current_steps = scheduled_steps(chain.as_slice(), &scheduler, mask);
        self.current_chain = chain;
        self.current_step_idx = 0;
        Ok((ComparableRecord::Case { case_id, mask: mask as u64 }, None))
    }

    pub fn read_result_record(&mut self) -> (r: Result<
        (ComparableRecord, Option<FileSnapshot>),
        String,
    >)
        requires
            old(self).wf(),
        ensures
            final(self).wf(),
            final(self).path == old(self).path,
            final(self).run == old(self).run,
            final(self).chain_len == old(self).chain_len,
            one_views(r, final(self)@) == next_result(old(self).path@, old(self)@),
    {
        if self.current_step_idx >= self.current_steps.len() {
            let mut e = self.path.clone().concat(" has more result records than steps for case ");
            push_dec(&mut e, self.current_case_id);
            return Err(e);
        }
        let scheduled = self.current_steps[self.current_step_idx];
        let step: usize = self.current_step_idx + 1;
        self.current_step_idx = step;
        let result = read_op_result(&mut self.source)?;
        assert(self@ =~= (ReaderView { input: self@.input, idx: step as nat, ..old(self)@ }));
        Ok(
            (
                ComparableRecord::Result {
                    step: step as u32,
                    worker: scheduled.worker as u32,
                    op: scheduled.op,
                    rc: result.rc,
                    err: result.err,
                    data: result.data,
                },
                None,
            ),
        )
    }

    pub fn read_snapshot_record(&mut self) -> (r: Result<
        (ComparableRecord, Option<FileSnapshot>),
        String,
    >)
        requires
            old(self).wf(),
        ensures
            final(self).wf(),
            final(self).path == old(self).path,
            final(self).run == old(self).run,
            final(self).chain_len == old(self).chain_len,
            one_views(r, final(self)@) == next_snapshot(old(self)@),
    {
        let tag: u8 = read_u8(&mut self.source)?;
        let file = FileId::from_tag(tag)?;
        let exists: bool = read_u8(&mut self.source)? != 0;
        let mut len: u64 = 0;
        let mut hash: u64 = 0;
        if exists {
            len = read_var_u64(&mut self.source)?;
            hash = read_u64(&mut self.source)?;
        }
        let rel = self.current_case_name.clone().concat("/").concat(file.name());
        let snapshot = FileSnapshot {
            case_id: self.current_case_id as usize,
            file,
            rel: rel.clone(),
            exists,
            len,
            hash,
        };
        assert(self@ =~= (ReaderView { input: self@.input, ..old(self)@ }));
        Ok(
            (
                ComparableRecord::Snapshot {
                    case_id: self.current_case_id,
                    file,
                    rel,
                    exists,
                    len,
                    hash,
                },
                Some(snapshot),
            ),
        )
    }
}

proof fn lemma_chain_fails(input: Input, low: nat, high: nat)
    requires
        low <= high,
        parse_chain(input, low).0 is Err,
    ensures
        parse_chain(input, high).0 == parse_chain(input, low).0,
    decreases high,
{
    if low < high {
        lemma_chain_fails(input, low, (high - 1) as nat);
    }
}

/// A whole report.
pub struct OracleReport {
    pub chain_len: usize,
    pub run: String,
    pub records: Vec<ComparableRecord>,
    pub snapshots: Vec<FileSnapshot>,
}

/// What the file of a report holds: its chain length, its run, its records and the
/// snapshots among them.
pub open spec fn report_of(path: Seq<char>, file: Seq<u8>) -> Result<
    (usize, Seq<char>, Seq<RecordView>, Seq<SnapshotView>),
    Seq<char>,
> {
    match parse_header(report_input(file), path) {
        (Err(e), _) => Err(e),
        (Ok((chain_len, run)), after) => match rest_of_report(path, opened(after, chain_len)) {
            Err(e) => Err(e),
            Ok((records, snapshots)) => Ok((chain_len, run, records, snapshots)),
        },
    }
}

/// The report that stands at `path` and whose file holds `file`.
pub fn read_report(path: &str, file: Vec<u8>) -> (r: Result<OracleReport, String>)
    ensures
        match r {
            Ok(report) => report_of(path@, file@) == Ok::<
                (usize, Seq<char>, Seq<RecordView>, Seq<SnapshotView>),
                Seq<char>,
            >(
                (
                    report.chain_len,
                    report.run@,
                    record_views(report.records@),
                    snapshot_views(report.snapshots@),
                ),
            ),
            Err(e) => report_of(path@, file@) == Err::<
                (usize, Seq<char>, Seq<RecordView>, Seq<SnapshotView>),
                Seq<char>,
            >(e@),
        },
{
    let mut reader = ReportReader::open(path, file)?;
    let chain_len: usize = reader.chain_len;
    let run = reader.run.clone();
    let ghost start = reader@;
    let mut records: Vec<ComparableRecord> = Vec::new();
    let mut snapshots: Vec<FileSnapshot> = Vec::new();
    assert(record_views(records@) =~= Seq::empty());
    assert(snapshot_views(snapshots@) =~= Seq::empty());
    loop
        invariant
            reader.wf(),
            reader.path@ == path@,
            ({
                let whole = rest_of_report(path@, start);
                match rest_of_report(path@, reader@) {
                    Err(e) => whole == Err::<(Seq<RecordView>, Seq<SnapshotView>), Seq<char>>(e),
                    Ok((rs, ss)) => whole == Ok::<
                        (Seq<RecordView>, Seq<SnapshotView>),
                        Seq<char>,
                    >((record_views(records@) + rs, snapshot_views(snapshots@) + ss)),
                }
            }),
            report_of(path@, file@) == match rest_of_report(path@, start) {
                Err(e) => Err(e),
                Ok((rs, ss)) => Ok((chain_len, run@, rs, ss)),
            },
        decreases reader@.input.rest.len(),
    {
        let ghost records0 = record_views(records@);
        let ghost snapshots0 = snapshot_views(snapshots@);
        let next = reader.read_record()?;
        match next {
            None => {
                assert(records0 + Seq::empty() =~= records0);
                assert(snapshots0 + Seq::empty() =~= snapshots0);
                return Ok(OracleReport { chain_len, run, records, snapshots });
            },
            Some((record, snapshot)) => {
                records.push(record);
                assert(record_views(records@) =~= records0.push(record@));
                proof {
                    if let Ok((rs, ss)) = rest_of_report(path@, reader@) {
                        assert(records0 + (seq![record@] + rs) =~= records0.push(record@) + rs);
                    }
                }
                match snapshot {
                    Some(s) => {
                        proof {
                            if let Ok((rs, ss)) = rest_of_report(path@, reader@) {
                                assert(snapshots0 + (seq![s@] + ss) =~= snapshots0.push(s@) + ss);
                            }
                        }
                        snapshots.push(s);
                        assert(snapshot_views(snapshots@) =~= snapshots0.push(s@));
                    },
                    None => {},
                }
            },
        }
    }
}

} // verus!
