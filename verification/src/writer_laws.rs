//! Reports of whole runs: what was told case by case is what is read back from the file.

use vstd::prelude::*;
use vstd::utf8::*;

use crate::codec::Input;
use crate::gzip::gz_decoded;
use crate::ops::{Op, WORKERS};
use crate::reader::{opened, report_of, ReaderView};
use crate::report::{
    case_name_text, end_bytes, entry_record, header_bytes, is_gzip, report_input, Entry, RecordView,
    ReportSink, ReportWriter, SnapshotView,
};
use crate::report_laws::{
    entries_bytes, entries_fit, entries_records, entries_snapshots, entry_fits,
    law_file_holds_report, law_report_round_trip, moved,
};
use crate::result::OpResultView;
use crate::schedule::{steps_of, ScheduledStep};

verus! {

/// A case that was run: its chain and its schedule, what each step returned, and what its
/// files held at the end.
pub struct RecordedCase {
    pub case_id: usize,
    pub mask: usize,
    pub chain: Seq<Op>,
    pub results: Seq<OpResultView>,
    pub snapshots: Seq<SnapshotView>,
}

impl RecordedCase {
    /// The chain with the worker of each operation.
    pub open spec fn steps(&self) -> Seq<ScheduledStep> {
        steps_of(WORKERS as nat, self.chain, self.mask as nat)
    }

    /// Whether a report of chains of the length `len` can hold the case: every step returned
    /// something that it can hold, and the snapshots are of this case.
    pub open spec fn fits(&self, len: usize) -> bool {
        &&& self.chain.len() == len
        &&& self.results.len() == len
        &&& forall|i: int| 0 <= i < len ==> (#[trigger] self.chain[i]).slots_fit()
        &&& forall|i: int|
            0 <= i < len ==> (#[trigger] self.results[i]).reportable()
                && self.results[i].data.len() <= usize::MAX
        &&& forall|i: int| 0 <= i < self.snapshots.len() ==> self.holds(#[trigger] self.snapshots[i])
    }

    /// Whether the snapshot is one of this case.
    pub open spec fn holds(&self, snapshot: SnapshotView) -> bool {
        &&& snapshot.case_id == self.case_id
        &&& snapshot.rel == case_name_text(self.case_id as nat) + "/"@ + snapshot.file.name_text()
        &&& !snapshot.exists ==> snapshot.len == 0 && snapshot.hash == 0
    }

    /// What a run tells of the case.
    pub open spec fn entries(&self) -> Seq<Entry> {
        seq![Entry::Case { case_id: self.case_id, mask: self.mask, chain: self.chain }]
            + step_entries(self.steps(), self.results, self.results.len()) + snapshot_entries(
            self.snapshots,
        )
    }

    /// What a report holds of the case: the case, a result for each operation of the chain, in
    /// their order, with the worker that the schedule gives it, and the snapshots.
    pub open spec fn records(&self) -> Seq<RecordView> {
        seq![RecordView::Case { case_id: self.case_id as u64, mask: self.mask as u64 }]
            + result_records(self.steps(), self.results, self.results.len()) + snapshot_records(
            self.snapshots,
        )
    }
}

/// What a run tells of the first `k` steps of a case.
pub open spec fn step_entries(
    steps: Seq<ScheduledStep>,
    results: Seq<OpResultView>,
    k: nat,
) -> Seq<Entry>
    decreases k,
{
    if k == 0 {
        Seq::empty()
    } else {
        let step = steps[k - 1];
        step_entries(steps, results, (k - 1) as nat) + seq![
            Entry::Step { step: k as usize, worker: step.worker, op: step.op },
            Entry::Result {
                step: k as usize,
                worker: step.worker,
                op: step.op,
                result: results[k - 1],
            },
        ]
    }
}

pub open spec fn snapshot_entries(snapshots: Seq<SnapshotView>) -> Seq<Entry> {
    snapshots.map_values(|snapshot: SnapshotView| Entry::Snapshot { snapshot })
}

/// The records of the first `k` steps of a case.
pub open spec fn result_records(
    steps: Seq<ScheduledStep>,
    results: Seq<OpResultView>,
    k: nat,
) -> Seq<RecordView> {
    Seq::new(
        k,
        |i: int|
            RecordView::Result {
                step: (i + 1) as u32,
                worker: steps[i].worker as u32,
                op: steps[i].op,
                rc: results[i].rc,
                err: results[i].err,
                data: results[i].data,
            },
    )
}

pub open spec fn snapshot_records(snapshots: Seq<SnapshotView>) -> Seq<RecordView> {
    snapshots.map_values(
        |s: SnapshotView|
            RecordView::Snapshot {
                case_id: s.case_id as u64,
                file: s.file,
                rel: s.rel,
                exists: s.exists,
                len: s.len,
                hash: s.hash,
            },
    )
}

/// What a run tells of its cases, one after the other.
pub open spec fn told(cases: Seq<RecordedCase>) -> Seq<Entry>
    decreases cases.len(),
{
    if cases.len() == 0 {
        Seq::empty()
    } else {
        told(cases.drop_last()) + cases.last().entries()
    }
}

/// The records of the cases, one after the other.
pub open spec fn recorded(cases: Seq<RecordedCase>) -> Seq<RecordView>
    decreases cases.len(),
{
    if cases.len() == 0 {
        Seq::empty()
    } else {
        recorded(cases.drop_last()) + cases.last().records()
    }
}

/// The snapshots of the cases, one after the other.
pub open spec fn snapshotted(cases: Seq<RecordedCase>) -> Seq<SnapshotView>
    decreases cases.len(),
{
    if cases.len() == 0 {
        Seq::empty()
    } else {
        snapshotted(cases.drop_last()) + cases.last().snapshots
    }
}

pub(crate) proof fn lemma_records_of_both(a: Seq<Entry>, b: Seq<Entry>)
    ensures
        entries_records(a + b) == entries_records(a) + entries_records(b),
        entries_snapshots(a + b) == entries_snapshots(a) + entries_snapshots(b),
        entries_bytes(a + b) == entries_bytes(a) + entries_bytes(b),
    decreases a.len(),
{
    if a.len() == 0 {
        assert(a + b =~= b);
        assert(entries_records(a) + entries_records(b) =~= entries_records(b));
        assert(entries_snapshots(a) + entries_snapshots(b) =~= entries_snapshots(b));
        assert(entries_bytes(a) + entries_bytes(b) =~= entries_bytes(b));
    } else {
        assert((a + b).drop_first() =~= a.drop_first() + b);
        assert((a + b)[0] == a[0]);
        lemma_records_of_both(a.drop_first(), b);
        assert(entries_records(a + b) =~= entries_records(a) + entries_records(b));
        assert(entries_snapshots(a + b) =~= entries_snapshots(a) + entries_snapshots(b));
        assert(entries_bytes(a + b) =~= entries_bytes(a) + entries_bytes(b));
    }
}

/// Where a run stands after the entries.
pub(crate) open spec fn moved_on(v: ReaderView, entries: Seq<Entry>) -> ReaderView
    decreases entries.len(),
{
    if entries.len() == 0 {
        v
    } else {
        moved_on(moved(v, entries[0], v.input), entries.drop_first())
    }
}

pub(crate) proof fn lemma_both_fit(v: ReaderView, a: Seq<Entry>, b: Seq<Entry>)
    requires
        entries_fit(v, a),
        entries_fit(moved_on(v, a), b),
    ensures
        entries_fit(v, a + b),
        moved_on(v, a + b) == moved_on(moved_on(v, a), b),
    decreases a.len(),
{
    if a.len() == 0 {
        assert(a + b =~= b);
    } else {
        assert((a + b).drop_first() =~= a.drop_first() + b);
        assert((a + b)[0] == a[0]);
        lemma_both_fit(moved(v, a[0], v.input), a.drop_first(), b);
    }
}

proof fn lemma_one_fits(v: ReaderView, entry: Entry)
    requires
        entry_fits(v, entry),
    ensures
        entries_fit(v, seq![entry]),
        moved_on(v, seq![entry]) == moved(v, entry, v.input),
{
    let one = seq![entry];
    let next = moved(v, entry, v.input);
    assert(one.drop_first() =~= Seq::empty());
    assert(entries_fit(next, one.drop_first()));
    assert(moved_on(next, one.drop_first()) == next);
}

proof fn lemma_steps_fit(v: ReaderView, results: Seq<OpResultView>, k: nat)
    requires
        k <= v.steps.len() == results.len(),
        v.steps.len() <= usize::MAX,
        v.idx == 0,
        forall|i: int|
            0 <= i < results.len() ==> (#[trigger] results[i]).reportable()
                && results[i].data.len() <= usize::MAX,
    ensures
        entries_fit(v, step_entries(v.steps, results, k)),
        moved_on(v, step_entries(v.steps, results, k)) == (ReaderView { idx: k, ..v }),
    decreases k,
{
    if k > 0 {
        let before = step_entries(v.steps, results, (k - 1) as nat);
        lemma_steps_fit(v, results, (k - 1) as nat);
        let at = ReaderView { idx: (k - 1) as nat, ..v };
        let step = v.steps[k - 1];
        let begun = Entry::Step { step: k as usize, worker: step.worker, op: step.op };
        let done = Entry::Result {
            step: k as usize,
            worker: step.worker,
            op: step.op,
            result: results[k - 1],
        };
        lemma_one_fits(at, begun);
        assert(moved(at, begun, at.input) == at);
        lemma_one_fits(at, done);
        lemma_both_fit(at, seq![begun], seq![done]);
        assert(seq![begun] + seq![done] =~= seq![begun, done]);
        lemma_both_fit(v, before, seq![begun, done]);
    }
}

proof fn lemma_snapshots_fit(v: ReaderView, entries: Seq<Entry>)
    requires
        forall|i: int|
            0 <= i < entries.len() ==> (#[trigger] entries[i]) is Snapshot && entry_fits(
                v,
                entries[i],
            ),
    ensures
        entries_fit(v, entries),
        moved_on(v, entries) == v,
    decreases entries.len(),
{
    if entries.len() > 0 {
        let rest = entries.drop_first();
        assert(entries[0] is Snapshot);
        assert(moved(v, entries[0], v.input) == v);
        assert forall|i: int| 0 <= i < rest.len() implies (#[trigger] rest[i]) is Snapshot
            && entry_fits(v, rest[i]) by {
            assert(rest[i] == entries[i + 1]);
        }
        lemma_snapshots_fit(v, rest);
    }
}

pub(crate) proof fn lemma_case_fits(v: ReaderView, c: RecordedCase)
    requires
        c.fits(v.chain_len),
    ensures
        c.entries().len() > 0,
        c.entries()[0] is Case,
        entries_fit(v, c.entries()),
        moved_on(v, c.entries()).chain_len == v.chain_len,
{
    let steps = c.steps();
    let first = Entry::Case { case_id: c.case_id, mask: c.mask, chain: c.chain };
    lemma_one_fits(v, first);
    let v1 = moved(v, first, v.input);
    let done = step_entries(steps, c.results, steps.len());
    lemma_steps_fit(v1, c.results, steps.len());
    let v2 = moved_on(v1, done);
    let files = snapshot_entries(c.snapshots);
    assert forall|i: int| 0 <= i < files.len() implies (#[trigger] files[i]) is Snapshot
        && entry_fits(v2, files[i]) by {
        assert(c.holds(c.snapshots[i]));
    }
    lemma_snapshots_fit(v2, files);
    lemma_both_fit(v, seq![first], done);
    lemma_both_fit(v, seq![first] + done, files);
}

proof fn lemma_result_records(steps: Seq<ScheduledStep>, results: Seq<OpResultView>, k: nat)
    requires
        k <= usize::MAX,
    ensures
        entries_records(step_entries(steps, results, k)) == result_records(steps, results, k),
        entries_snapshots(step_entries(steps, results, k)) == Seq::<SnapshotView>::empty(),
    decreases k,
{
    if k == 0 {
        assert(result_records(steps, results, k) =~= Seq::empty());
    } else {
        lemma_result_records(steps, results, (k - 1) as nat);
        let before = step_entries(steps, results, (k - 1) as nat);
        let step = steps[k - 1];
        let begun = Entry::Step { step: k as usize, worker: step.worker, op: step.op };
        let done = Entry::Result {
            step: k as usize,
            worker: step.worker,
            op: step.op,
            result: results[k - 1],
        };
        let two = seq![begun, done];
        lemma_records_of_both(before, two);
        assert(two.drop_first() =~= seq![done]);
        assert(two.drop_first().drop_first() =~= Seq::empty());
        reveal_with_fuel(entries_records, 3);
        reveal_with_fuel(entries_snapshots, 3);
        assert(entries_records(two) =~= seq![entry_record(done)->0]);
        assert(entries_snapshots(two) =~= Seq::empty());
        assert(result_records(steps, results, k) =~= result_records(
            steps,
            results,
            (k - 1) as nat,
        ) + seq![entry_record(done)->0]);
    }
}

proof fn lemma_snapshot_records(snapshots: Seq<SnapshotView>)
    ensures
        entries_records(snapshot_entries(snapshots)) == snapshot_records(snapshots),
        entries_snapshots(snapshot_entries(snapshots)) == snapshots,
    decreases snapshots.len(),
{
    let entries = snapshot_entries(snapshots);
    if snapshots.len() == 0 {
        assert(snapshot_records(snapshots) =~= Seq::empty());
        assert(snapshots =~= Seq::empty());
    } else {
        let rest = snapshots.drop_first();
        lemma_snapshot_records(rest);
        assert(entries.drop_first() =~= snapshot_entries(rest));
        assert(entries[0] == Entry::Snapshot { snapshot: snapshots[0] });
        assert(snapshot_records(snapshots) =~= seq![entry_record(entries[0])->0] + snapshot_records(
            rest,
        ));
        assert(snapshots =~= seq![snapshots[0]] + rest);
    }
}

pub(crate) proof fn lemma_case_records(c: RecordedCase)
    requires
        c.results.len() <= usize::MAX,
    ensures
        entries_records(c.entries()) == c.records(),
        entries_snapshots(c.entries()) == c.snapshots,
{
    let first = seq![Entry::Case { case_id: c.case_id, mask: c.mask, chain: c.chain }];
    let done = step_entries(c.steps(), c.results, c.results.len());
    let files = snapshot_entries(c.snapshots);
    lemma_records_of_both(first, done);
    lemma_records_of_both(first + done, files);
    lemma_result_records(c.steps(), c.results, c.results.len());
    lemma_snapshot_records(c.snapshots);
    assert(first.drop_first() =~= Seq::empty());
    reveal_with_fuel(entries_records, 2);
    reveal_with_fuel(entries_snapshots, 2);
    assert(entries_records(first) =~= seq![entry_record(first[0])->0]);
    assert(entries_snapshots(first) =~= Seq::empty());
    assert(entries_snapshots(c.entries()) =~= c.snapshots);
}

pub(crate) proof fn lemma_told(v: ReaderView, cases: Seq<RecordedCase>, len: usize)
    requires
        v.chain_len == len,
        forall|i: int| 0 <= i < cases.len() ==> (#[trigger] cases[i]).fits(len),
    ensures
        entries_fit(v, told(cases)),
        moved_on(v, told(cases)).chain_len == len,
        entries_records(told(cases)) == recorded(cases),
        entries_snapshots(told(cases)) == snapshotted(cases),
        told(cases).len() > 0 ==> told(cases)[0] is Case,
    decreases cases.len(),
{
    if cases.len() > 0 {
        let less = cases.drop_last();
        let c = cases.last();
        assert forall|i: int| 0 <= i < less.len() implies (#[trigger] less[i]).fits(len) by {
            assert(less[i] == cases[i]);
        }
        assert(cases[cases.len() - 1].fits(len));
        lemma_told(v, less, len);
        lemma_case_fits(moved_on(v, told(less)), c);
        lemma_both_fit(v, told(less), c.entries());
        lemma_case_records(c);
        lemma_records_of_both(told(less), c.entries());
        assert(told(cases)[0] == if told(less).len() > 0 {
            told(less)[0]
        } else {
            c.entries()[0]
        });
    }
}

/// Whether `file` holds the report of a run called `run` over chains of the length `len`, in
/// which these were the cases, out of `total`.
pub open spec fn reports(
    file: Seq<u8>,
    run: Seq<char>,
    len: usize,
    cases: Seq<RecordedCase>,
    total: nat,
) -> bool {
    report_input(file) == (Input {
        rest: header_bytes(len as nat, run) + entries_bytes(told(cases)) + end_bytes(total),
        fault: None,
    })
}

/// Whether the writers are one and the same from call to call, each entry told to the one
/// before.
pub open spec fn told_to(trace: Seq<ReportWriter>, entries: Seq<Entry>) -> bool {
    &&& trace.len() == entries.len() + 1
    &&& forall|i: int|
        0 <= i < entries.len() ==> (#[trigger] trace[i]).took(entries[i], trace[i + 1])
}

proof fn lemma_trace(trace: Seq<ReportWriter>, entries: Seq<Entry>)
    requires
        told_to(trace, entries),
    ensures
        trace.last().compressed == trace[0].compressed,
        trace.last().bytes@ == trace[0].bytes@ + entries_bytes(entries),
    decreases entries.len(),
{
    if entries.len() == 0 {
        assert(trace[0].bytes@ + entries_bytes(entries) =~= trace[0].bytes@);
    } else {
        let rest = entries.drop_first();
        let later = trace.drop_first();
        assert(trace[0].took(entries[0], trace[1]));
        assert forall|i: int| 0 <= i < rest.len() implies (#[trigger] later[i]).took(
            rest[i],
            later[i + 1],
        ) by {
            assert(trace[i + 1].took(entries[i + 1], trace[i + 2]));
        }
        lemma_trace(later, rest);
        assert(trace[0].bytes@ + entries_bytes(entries) =~= trace[1].bytes@ + entries_bytes(rest));
    }
}

/// A writer that was created for chains of the length `len`, was told of each case, its
/// results and its snapshots, and was ended, gives the file of a report of these cases,
/// compressed or not.
pub proof fn law_writer_makes_reports(
    len: usize,
    run: Seq<char>,
    cases: Seq<RecordedCase>,
    trace: Seq<ReportWriter>,
    ended: ReportWriter,
    total: usize,
    file: Seq<u8>,
)
    requires
        told_to(trace, told(cases)),
        trace[0].bytes@ == header_bytes(len as nat, run),
        ended.compressed == trace.last().compressed,
        ended.bytes@ == trace.last().bytes@ + end_bytes(total as nat),
        ended.compressed ==> is_gzip(file) && gz_decoded(file) == (
            ended.bytes@,
            None::<Seq<char>>,
        ),
        !ended.compressed ==> file == ended.bytes@,
    ensures
        reports(file, run, len, cases, total as nat),
{
    let header = header_bytes(len as nat, run);
    lemma_trace(trace, told(cases));
    assert(ended.bytes@.take(header.len() as int) =~= header);
    law_file_holds_report(ended.bytes@, file, len as nat, run);
}

/// A report is read back as it was written: the cases, their results in the order of their
/// chains, with the workers of their schedules, the snapshots, and the end.
pub proof fn law_report_of_cases_is_read_back(
    path: Seq<char>,
    file: Seq<u8>,
    run: Seq<char>,
    len: usize,
    cases: Seq<RecordedCase>,
    total: usize,
)
    requires
        encode_utf8(run).len() <= u32::MAX,
        forall|i: int| 0 <= i < cases.len() ==> (#[trigger] cases[i]).fits(len),
        reports(file, run, len, cases, total as nat),
    ensures
        report_of(path, file) == Ok::<
            (usize, Seq<char>, Seq<RecordView>, Seq<SnapshotView>),
            Seq<char>,
        >(
            (
                len,
                run,
                recorded(cases).push(RecordView::End { cases: total as u64 }),
                snapshotted(cases),
            ),
        ),
{
    lemma_told(opened(Input { rest: Seq::empty(), fault: None }, len), cases, len);
    law_report_round_trip(path, file, len, run, told(cases), total as u64);
}

} // verus!
