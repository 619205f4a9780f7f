//! Whole runs on one host: a run of some cases agrees with the run of all of them.

use vstd::prelude::*;
use vstd::utf8::*;

use crate::codec::Input;
use crate::exec::{
    answers, idle_worker, law_results_are_reportable, recorded_files, request_of, result_of,
    snapshot_of, worker_after, Outcome, RequestView, WorkerView,
};
use crate::listing::listing_bytes;
use crate::ops::{FileId, Op, WORKERS};
use crate::paths::joined_path;
use crate::reader::opened;
use crate::report::{case_name_text, RecordView};
use crate::report_laws::{holds_report, law_faithful_runs_pass};
use crate::result::OpResultView;
use crate::schedule::{steps_of, ScheduledStep};
use crate::selection::{
    law_selection_counts_its_cases, OracleCaseSelection, THEORY_TRIAL_1_FIXTURE_COUNT,
};
use crate::suite::{law_suite_cases, suite, PlannedCase, SuiteRun};
use crate::verify::{picked, reports_verdict};
use crate::writer_laws::{
    lemma_told, recorded, reports, result_records, snapshot_records, told, RecordedCase,
};

verus! {

/// A host on which every case starts afresh: what it answers, and what it keeps in files,
/// follows from the steps of the case so far and from the number of the case's fixtures.
pub struct Host {
    /// The answer to the last of the steps.
    pub answer: spec_fn(Seq<ScheduledStep>, usize) -> Outcome,
    /// What a file holds after the steps, if it is there.
    pub file: spec_fn(Seq<ScheduledStep>, usize, FileId) -> Option<Seq<u8>>,
    pub wasm: bool,
}

/// Where a run keeps its cases, and where the fixtures are.
pub struct Place {
    pub root: Seq<char>,
    pub fixtures: Seq<char>,
}

impl Host {
    /// Whether every answer is one to the operation, with no more bytes than a result counts.
    pub open spec fn wf(&self) -> bool {
        forall|steps: Seq<ScheduledStep>, fixture_id: usize|
            steps.len() > 0 ==> {
                let outcome = #[trigger] (self.answer)(steps, fixture_id);
                &&& answers(steps.last().op, outcome)
                &&& outcome matches Outcome::Data(bytes) ==> bytes@.len() <= i64::MAX
                    && bytes@.len() <= usize::MAX
                &&& outcome matches Outcome::Names(names) ==> listing_bytes(names@).len()
                    <= i64::MAX && listing_bytes(names@).len() <= usize::MAX
            }
    }
}

/// The workers after the first `k` steps of a case, and what each of the steps returned.
pub open spec fn after_steps(
    host: Host,
    case_root: Seq<char>,
    fixtures: Seq<char>,
    fixture_id: usize,
    steps: Seq<ScheduledStep>,
    k: nat,
) -> (Seq<WorkerView>, Seq<OpResultView>)
    decreases k,
{
    if k == 0 {
        (Seq::new(WORKERS as nat, |i: int| idle_worker()), Seq::empty())
    } else {
        let (workers, results) = after_steps(
            host,
            case_root,
            fixtures,
            fixture_id,
            steps,
            (k - 1) as nat,
        );
        let step = steps[k - 1];
        let w = step.worker as int;
        match request_of(workers[w].slots, step.op, case_root, fixtures, fixture_id) {
            RequestView::Done { result } => (workers, results.push(result)),
            _ => {
                let outcome = (host.answer)(steps.take(k as int), fixture_id);
                (
                    workers.update(w, worker_after(workers[w], step.op, outcome)),
                    results.push(result_of(step.op, outcome, host.wasm)),
                )
            },
        }
    }
}

/// What is to be recorded of a case that was run.
pub open spec fn case_run(
    host: Host,
    place: Place,
    case_id: usize,
    fixture_id: usize,
    chain: Seq<Op>,
    mask: usize,
) -> RecordedCase {
    let steps = steps_of(WORKERS as nat, chain, mask as nat);
    RecordedCase {
        case_id,
        mask,
        chain,
        results: after_steps(
            host,
            joined_path(place.root, case_name_text(case_id as nat)),
            place.fixtures,
            fixture_id,
            steps,
            steps.len(),
        ).1,
        snapshots: recorded_files(chain).map_values(
            |file: FileId|
                snapshot_of(
                    case_id,
                    case_name_text(case_id as nat),
                    file,
                    (host.file)(steps, fixture_id, file),
                ),
        ),
    }
}

/// How many of the first `k` cases are among `ids`.
pub open spec fn selected_among(ids: Set<usize>, k: nat) -> nat
    decreases k,
{
    if k == 0 {
        0
    } else {
        selected_among(ids, (k - 1) as nat) + if ids.contains(k as usize) {
            1nat
        } else {
            0nat
        }
    }
}

/// The number of the fixtures of case `k` in a run of the cases `ids`.
pub open spec fn fixture_in_run(len: nat, ids: Set<usize>, k: nat) -> usize {
    if suite(len).len() <= THEORY_TRIAL_1_FIXTURE_COUNT {
        k as usize
    } else {
        selected_among(ids, k) as usize
    }
}

/// The cases of a run of the cases `ids`, among the first `k` of the suite.
pub open spec fn run_cases(host: Host, place: Place, len: nat, ids: Set<usize>, k: nat) -> Seq<
    RecordedCase,
>
    decreases k,
{
    if k == 0 {
        Seq::empty()
    } else {
        let before = run_cases(host, place, len, ids, (k - 1) as nat);
        if ids.contains(k as usize) {
            let (chain, mask) = suite(len)[k - 1];
            before.push(
                case_run(
                    host,
                    place,
                    k as usize,
                    fixture_in_run(len, ids, k),
                    chain,
                    mask as usize,
                ),
            )
        } else {
            before
        }
    }
}

/// Whether each of the cases `ids` has the fixtures that it has in a run of all cases: there
/// are enough for every case, or no case is left out before the last one of `ids`.
pub open spec fn same_fixtures(len: nat, ids: Set<usize>) -> bool {
    suite(len).len() <= THEORY_TRIAL_1_FIXTURE_COUNT || forall|k: nat|
        1 <= k <= suite(len).len() && ids.contains(k as usize) ==> #[trigger] selected_among(
            ids,
            k,
        ) == k
}

/// The same cases, as a report numbers them.
pub open spec fn report_ids(ids: Set<usize>) -> Set<u64> {
    Set::new(|id: u64| ids.contains(id as usize))
}

proof fn lemma_results(
    host: Host,
    a: (Seq<char>, Seq<char>),
    b: (Seq<char>, Seq<char>),
    fixture_id: usize,
    steps: Seq<ScheduledStep>,
    k: nat,
)
    requires
        k <= steps.len(),
    ensures
        after_steps(host, a.0, a.1, fixture_id, steps, k) == after_steps(
            host,
            b.0,
            b.1,
            fixture_id,
            steps,
            k,
        ),
        after_steps(host, a.0, a.1, fixture_id, steps, k).1.len() == k,
    decreases k,
{
    if k > 0 {
        lemma_results(host, a, b, fixture_id, steps, (k - 1) as nat);
    }
}

/// What a case does is the same wherever its run stands.
pub proof fn law_cases_do_not_depend_on_their_place(
    host: Host,
    a: Place,
    b: Place,
    case_id: usize,
    fixture_id: usize,
    chain: Seq<Op>,
    mask: usize,
)
    ensures
        case_run(host, a, case_id, fixture_id, chain, mask) == case_run(
            host,
            b,
            case_id,
            fixture_id,
            chain,
            mask,
        ),
{
    let steps = steps_of(WORKERS as nat, chain, mask as nat);
    let name = case_name_text(case_id as nat);
    lemma_results(
        host,
        (joined_path(a.root, name), a.fixtures),
        (joined_path(b.root, name), b.fixtures),
        fixture_id,
        steps,
        steps.len(),
    );
}

proof fn lemma_reportable(
    host: Host,
    case_root: Seq<char>,
    fixtures: Seq<char>,
    fixture_id: usize,
    steps: Seq<ScheduledStep>,
    k: nat,
    i: int,
)
    requires
        host.wf(),
        0 <= i < k <= steps.len(),
    ensures
        ({
            let results = after_steps(host, case_root, fixtures, fixture_id, steps, k).1;
            &&& results.len() == k
            &&& results[i].reportable()
            &&& results[i].data.len() <= usize::MAX
        }),
    decreases k,
{
    let root = (case_root, fixtures);
    lemma_results(host, root, root, fixture_id, steps, (k - 1) as nat);
    if i < k - 1 {
        lemma_reportable(host, case_root, fixtures, fixture_id, steps, (k - 1) as nat, i);
    } else {
        let outcome = (host.answer)(steps.take(k as int), fixture_id);
        let op = steps[k - 1].op;
        assert(steps.take(k as int).last() == steps[k - 1]);
        law_results_are_reportable(op, outcome, host.wasm);
    }
}

proof fn lemma_case_run_fits(
    host: Host,
    place: Place,
    case_id: usize,
    fixture_id: usize,
    chain: Seq<Op>,
    mask: usize,
    len: usize,
)
    requires
        host.wf(),
        chain.len() == len,
        forall|i: int| 0 <= i < chain.len() ==> (#[trigger] chain[i]).slots_fit(),
    ensures
        case_run(host, place, case_id, fixture_id, chain, mask).fits(len),
{
    let c = case_run(host, place, case_id, fixture_id, chain, mask);
    let case_root = joined_path(place.root, case_name_text(case_id as nat));
    let root = (case_root, place.fixtures);
    lemma_results(host, root, root, fixture_id, c.steps(), len as nat);
    assert forall|i: int| 0 <= i < len implies (#[trigger] c.results[i]).reportable()
        && c.results[i].data.len() <= usize::MAX by {
        lemma_reportable(host, case_root, place.fixtures, fixture_id, c.steps(), len as nat, i);
    }
}

/// Whether a record is of the case `id`, but not its first.
spec fn of_case(record: RecordView, id: u64) -> bool {
    match record {
        RecordView::Result { .. } => true,
        RecordView::Snapshot { case_id, .. } => case_id == id,
        _ => false,
    }
}

proof fn lemma_picked_on(ids: Set<u64>, before: Seq<RecordView>, more: Seq<RecordView>, id: u64)
    requires
        picked(ids, before).1 == ids.contains(id),
        forall|i: int| 0 <= i < more.len() ==> of_case(#[trigger] more[i], id),
    ensures
        picked(ids, before + more) == (
            if ids.contains(id) {
                picked(ids, before).0 + more
            } else {
                picked(ids, before).0
            },
            ids.contains(id),
        ),
    decreases more.len(),
{
    if more.len() == 0 {
        assert(before + more =~= before);
        assert(picked(ids, before).0 + more =~= picked(ids, before).0);
    } else {
        let less = more.drop_last();
        assert forall|i: int| 0 <= i < less.len() implies of_case(#[trigger] less[i], id) by {
            assert(less[i] == more[i]);
        }
        lemma_picked_on(ids, before, less, id);
        assert((before + more).drop_last() =~= before + less);
        assert((before + more).last() == more[more.len() - 1]);
        assert((picked(ids, before).0 + less).push(more.last()) =~= picked(ids, before).0 + more);
    }
}

proof fn lemma_case_picked(ids: Set<u64>, before: Seq<RecordView>, c: RecordedCase)
    requires
        forall|i: int| 0 <= i < c.snapshots.len() ==> c.holds(#[trigger] c.snapshots[i]),
    ensures
        picked(ids, before + c.records()).0 == if ids.contains(c.case_id as u64) {
            picked(ids, before).0 + c.records()
        } else {
            picked(ids, before).0
        },
{
    let id = c.case_id as u64;
    let start = RecordView::Case { case_id: id, mask: c.mask as u64 };
    let results = result_records(c.steps(), c.results, c.results.len());
    let more = results + snapshot_records(c.snapshots);
    assert(before + c.records() =~= before.push(start) + more);
    assert(before.push(start).drop_last() =~= before);
    assert forall|i: int| 0 <= i < more.len() implies of_case(#[trigger] more[i], id) by {
        if i < results.len() {
            assert(more[i] == results[i]);
        } else {
            assert(c.holds(c.snapshots[i - results.len()]));
        }
    }
    lemma_picked_on(ids, before.push(start), more, id);
    assert(picked(ids, before).0.push(start) + more =~= picked(ids, before).0 + c.records());
}

pub(crate) proof fn lemma_all_are_selected(k: nat)
    ensures
        selected_among(Set::<usize>::full(), k) == k,
    decreases k,
{
    if k > 0 {
        lemma_all_are_selected((k - 1) as nat);
    }
}

pub(crate) proof fn lemma_suite_case_fits(
    host: Host,
    place: Place,
    len: usize,
    k: nat,
    fixture_id: usize,
)
    requires
        host.wf(),
        1 <= k <= suite(len as nat).len(),
    ensures
        ({
            let (chain, mask) = suite(len as nat)[k - 1];
            case_run(host, place, k as usize, fixture_id, chain, mask as usize).fits(len)
        }),
{
    let (chain, mask) = suite(len as nat)[k - 1];
    law_suite_cases(len as nat, k - 1, k - 1);
    assert forall|i: int| 0 <= i < chain.len() implies (#[trigger] chain[i]).slots_fit() by {
        assert(suite(len as nat)[k - 1].0[i].slots_exist());
    }
    lemma_case_run_fits(host, place, k as usize, fixture_id, chain, mask as usize, len);
}

proof fn lemma_run_fits(host: Host, place: Place, len: usize, ids: Set<usize>, k: nat, i: int)
    requires
        host.wf(),
        k <= suite(len as nat).len(),
        0 <= i < run_cases(host, place, len as nat, ids, k).len(),
    ensures
        run_cases(host, place, len as nat, ids, k)[i].fits(len),
    decreases k,
{
    let before = run_cases(host, place, len as nat, ids, (k - 1) as nat);
    if i < before.len() {
        lemma_run_fits(host, place, len, ids, (k - 1) as nat, i);
    } else {
        lemma_suite_case_fits(host, place, len, k, fixture_in_run(len as nat, ids, k));
    }
}

proof fn lemma_run_records(
    host: Host,
    whole: Place,
    part: Place,
    len: usize,
    ids: Set<usize>,
    k: nat,
)
    requires
        host.wf(),
        k <= suite(len as nat).len() <= usize::MAX,
        same_fixtures(len as nat, ids),
    ensures
        recorded(run_cases(host, part, len as nat, ids, k)) == picked(
            report_ids(ids),
            recorded(run_cases(host, whole, len as nat, Set::full(), k)),
        ).0,
    decreases k,
{
    if k > 0 {
        lemma_run_records(host, whole, part, len, ids, (k - 1) as nat);
        let all = Set::<usize>::full();
        let before = run_cases(host, whole, len as nat, all, (k - 1) as nat);
        let (chain, mask) = suite(len as nat)[k - 1];
        let id = k as usize;
        lemma_all_are_selected(k);
        let fixture_id = fixture_in_run(len as nat, all, k);
        let c = case_run(host, whole, id, fixture_id, chain, mask as usize);
        assert(before.push(c).drop_last() =~= before);
        lemma_suite_case_fits(host, whole, len, k, fixture_id);
        lemma_case_picked(report_ids(ids), recorded(before), c);
        if ids.contains(id) {
            let fewer = run_cases(host, part, len as nat, ids, (k - 1) as nat);
            assert(fixture_in_run(len as nat, ids, k) == fixture_id) by {
                if suite(len as nat).len() > THEORY_TRIAL_1_FIXTURE_COUNT {
                    assert(selected_among(ids, k) == k);
                }
            }
            law_cases_do_not_depend_on_their_place(
                host,
                whole,
                part,
                id,
                fixture_id,
                chain,
                mask as usize,
            );
            assert(fewer.push(c).drop_last() =~= fewer);
        }
    }
}

/// A run of some cases passes against the run of all of them on the same host, wherever the
/// two runs stand: comparing their reports finds nothing.
pub proof fn law_shard_of_a_run_passes(
    host: Host,
    whole: Place,
    part: Place,
    len: usize,
    ids: Set<usize>,
    expected_path: Seq<char>,
    expected: Seq<u8>,
    expected_name: Seq<char>,
    actual_path: Seq<char>,
    actual: Seq<u8>,
    actual_name: Seq<char>,
)
    requires
        host.wf(),
        suite(len as nat).len() <= usize::MAX,
        encode_utf8(expected_name).len() <= u32::MAX,
        encode_utf8(actual_name).len() <= u32::MAX,
        same_fixtures(len as nat, ids),
        ({
            let total = suite(len as nat).len();
            let all = run_cases(host, whole, len as nat, Set::full(), total);
            let some = run_cases(host, part, len as nat, ids, total);
            &&& reports(expected, expected_name, len, all, total)
            &&& reports(actual, actual_name, len, some, total)
        }),
    ensures
        reports_verdict(expected_path, expected, actual_path, actual) == Ok::<(), Seq<char>>(()),
{
    let total = suite(len as nat).len();
    let cases = total as u64;
    let start = opened(Input { rest: Seq::empty(), fault: None }, len);
    let all = run_cases(host, whole, len as nat, Set::full(), total);
    let some = run_cases(host, part, len as nat, ids, total);
    assert forall|i: int| 0 <= i < all.len() implies (#[trigger] all[i]).fits(len) by {
        lemma_run_fits(host, whole, len, Set::full(), total, i);
    }
    assert forall|i: int| 0 <= i < some.len() implies (#[trigger] some[i]).fits(len) by {
        lemma_run_fits(host, part, len, ids, total, i);
    }
    lemma_told(start, all, len);
    lemma_told(start, some, len);
    lemma_run_records(host, whole, part, len, ids, total);
    assert(holds_report(expected, len, expected_name, told(all), cases));
    assert(holds_report(actual, len, actual_name, told(some), cases));
    law_faithful_runs_pass(
        expected_path,
        expected,
        expected_name,
        told(all),
        actual_path,
        actual,
        actual_name,
        told(some),
        len,
        cases,
        report_ids(ids),
    );
}

/// The cases that a walk over a suite gave out, run.
pub open spec fn planned_cases(host: Host, place: Place, cases: Seq<PlannedCase>) -> Seq<
    RecordedCase,
> {
    cases.map_values(
        |c: PlannedCase| case_run(host, place, c.case_id, c.fixture_id, c.chain@, c.mask),
    )
}

/// Whether a walk that began at the start of the suite of chains of the length `len` gave out
/// just these cases of the selection, being asked until there was none.
pub open spec fn walked(
    trace: Seq<SuiteRun>,
    end: SuiteRun,
    len: usize,
    selection: OracleCaseSelection,
    cases: Seq<PlannedCase>,
) -> bool {
    &&& trace.len() == cases.len() + 1
    &&& trace[0].chain_len() == len
    &&& trace[0].selected() == selection
    &&& trace[0].passed() == 0
    &&& trace[0].given() == 0
    &&& forall|i: int|
        0 <= i < cases.len() ==> (#[trigger] trace[i]).gave(Some(cases[i]), trace[i + 1])
    &&& trace.last().gave(None, end)
}

proof fn lemma_none_between(host: Host, place: Place, len: nat, ids: Set<usize>, p: nat, q: nat)
    requires
        p <= q <= usize::MAX,
        forall|k: int| p <= k < q ==> !ids.contains(#[trigger] ((k + 1) as usize)),
    ensures
        run_cases(host, place, len, ids, q) == run_cases(host, place, len, ids, p),
        selected_among(ids, q) == selected_among(ids, p),
    decreases q,
{
    if p < q {
        let k = (q - 1) as int;
        assert(!ids.contains((k + 1) as usize));
        lemma_none_between(host, place, len, ids, p, (q - 1) as nat);
    }
}

proof fn lemma_walk(
    host: Host,
    place: Place,
    trace: Seq<SuiteRun>,
    end: SuiteRun,
    len: usize,
    selection: OracleCaseSelection,
    cases: Seq<PlannedCase>,
    n: nat,
)
    requires
        walked(trace, end, len, selection, cases),
        suite(len as nat).len() <= usize::MAX,
        n <= cases.len(),
    ensures
        trace[n as int].chain_len() == len,
        trace[n as int].selected() == selection,
        trace[n as int].given() == n,
        trace[n as int].passed() <= suite(len as nat).len(),
        selected_among(selection.cases(), trace[n as int].passed() as nat) == n,
        planned_cases(host, place, cases.take(n as int)) == run_cases(
            host,
            place,
            len as nat,
            selection.cases(),
            trace[n as int].passed() as nat,
        ),
    decreases n,
{
    let ids = selection.cases();
    if n == 0 {
        assert(planned_cases(host, place, cases.take(0)) =~= Seq::empty());
    } else {
        let i = n - 1;
        lemma_walk(host, place, trace, end, len, selection, cases, i as nat);
        let before = trace[i];
        let c = cases[i];
        assert(before.gave(Some(c), trace[i + 1]));
        let id = c.case_id as nat;
        lemma_none_between(
            host,
            place,
            len as nat,
            ids,
            before.passed() as nat,
            (id - 1) as nat,
        );
        assert(c.fixture_id == fixture_in_run(len as nat, ids, id));
        assert(planned_cases(host, place, cases.take(n as int)) =~= planned_cases(
            host,
            place,
            cases.take(i as int),
        ).push(case_run(host, place, c.case_id, c.fixture_id, c.chain@, c.mask)));
    }
}

pub(crate) open spec fn ids_up_to(k: nat) -> Set<usize> {
    Set::new(|id: usize| 1 <= id <= k)
}

pub(crate) proof fn lemma_among(ids: Set<usize>, k: nat)
    requires
        ids.finite(),
        k <= usize::MAX,
    ensures
        ids.intersect(ids_up_to(k)).finite(),
        ids.intersect(ids_up_to(k)).len() == selected_among(ids, k),
    decreases k,
{
    if k == 0 {
        assert(ids.intersect(ids_up_to(0)) =~= Set::empty());
    } else {
        let less = ids.intersect(ids_up_to((k - 1) as nat));
        lemma_among(ids, (k - 1) as nat);
        if ids.contains(k as usize) {
            assert(ids.intersect(ids_up_to(k)) =~= less.insert(k as usize));
        } else {
            assert(ids.intersect(ids_up_to(k)) =~= less);
        }
    }
}

/// A walk over a suite gives out every selected case once, in the order of the suite, with
/// the fixtures of its place in the run.
pub proof fn law_walk_gives_the_selected_cases(
    host: Host,
    place: Place,
    trace: Seq<SuiteRun>,
    end: SuiteRun,
    len: usize,
    selection: OracleCaseSelection,
    cases: Seq<PlannedCase>,
)
    requires
        walked(trace, end, len, selection, cases),
        selection.wf(),
        suite(len as nat).len() <= usize::MAX,
    ensures
        planned_cases(host, place, cases) == run_cases(
            host,
            place,
            len as nat,
            selection.cases(),
            suite(len as nat).len(),
        ),
{
    let ids = selection.cases();
    let total = suite(len as nat).len();
    let last = trace.last();
    lemma_walk(host, place, trace, end, len, selection, cases, cases.len());
    assert(cases.take(cases.len() as int) =~= cases);
    let passed = last.passed() as nat;
    law_selection_counts_its_cases(selection);
    assert forall|k: int| passed <= k < total implies !ids.contains(
        #[trigger] ((k + 1) as usize),
    ) by {
        if last.given() >= selection.size() {
            let among = ids.intersect(ids_up_to(passed));
            lemma_among(ids, passed);
            vstd::set_lib::lemma_len_subset(among, ids);
            vstd::set_lib::lemma_subset_equality(among, ids);
            assert(!ids_up_to(passed).contains((k + 1) as usize));
        }
    }
    lemma_none_between(host, place, len as nat, ids, passed, total);
}

proof fn lemma_same_ids(
    host: Host,
    place: Place,
    len: nat,
    a: Set<usize>,
    b: Set<usize>,
    k: nat,
)
    requires
        forall|i: nat| 1 <= i <= k ==> a.contains(#[trigger] (i as usize)) == b.contains(i as usize),
    ensures
        selected_among(a, k) == selected_among(b, k),
        run_cases(host, place, len, a, k) == run_cases(host, place, len, b, k),
    decreases k,
{
    if k > 0 {
        lemma_same_ids(host, place, len, a, b, (k - 1) as nat);
        assert(a.contains(k as usize) == b.contains(k as usize));
    }
}

/// A shard or a sample passes against the whole suite: where one walk gave out all cases of a
/// suite and another some of them, and the cases of both were run on the same host, each in a
/// place of its own, comparing the report of the second with that of the first finds nothing.
pub proof fn law_selected_cases_pass(
    host: Host,
    whole: Place,
    part: Place,
    len: usize,
    all_trace: Seq<SuiteRun>,
    all_end: SuiteRun,
    all: OracleCaseSelection,
    all_cases: Seq<PlannedCase>,
    trace: Seq<SuiteRun>,
    end: SuiteRun,
    selection: OracleCaseSelection,
    cases: Seq<PlannedCase>,
    expected_path: Seq<char>,
    expected: Seq<u8>,
    expected_name: Seq<char>,
    actual_path: Seq<char>,
    actual: Seq<u8>,
    actual_name: Seq<char>,
)
    requires
        host.wf(),
        suite(len as nat).len() < usize::MAX,
        encode_utf8(expected_name).len() <= u32::MAX,
        encode_utf8(actual_name).len() <= u32::MAX,
        walked(all_trace, all_end, len, all, all_cases),
        all == (OracleCaseSelection::Range {
            start: 1,
            end: (suite(len as nat).len() + 1) as usize,
            count: suite(len as nat).len() as usize,
        }),
        walked(trace, end, len, selection, cases),
        selection.wf(),
        same_fixtures(len as nat, selection.cases()),
        reports(
            expected,
            expected_name,
            len,
            planned_cases(host, whole, all_cases),
            suite(len as nat).len(),
        ),
        reports(
            actual,
            actual_name,
            len,
            planned_cases(host, part, cases),
            suite(len as nat).len(),
        ),
    ensures
        reports_verdict(expected_path, expected, actual_path, actual) == Ok::<(), Seq<char>>(()),
{
    let total = suite(len as nat).len();
    law_walk_gives_the_selected_cases(host, whole, all_trace, all_end, len, all, all_cases);
    law_walk_gives_the_selected_cases(host, part, trace, end, len, selection, cases);
    lemma_same_ids(host, whole, len as nat, all.cases(), Set::full(), total);
    law_shard_of_a_run_passes(
        host,
        whole,
        part,
        len,
        selection.cases(),
        expected_path,
        expected,
        expected_name,
        actual_path,
        actual,
        actual_name,
    );
}

} // verus!
