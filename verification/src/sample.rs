//! Sampling a suite by way of a report: the cases of the sample are run as they come by in
//! the expected report, and compared with it at once.

use std::collections::BTreeSet;
use vstd::prelude::*;
use vstd::string::*;

use crate::compare::{
    can_compare, comparable, finish_streamed_sample_case, finished_sample, optional_views,
    verdict_text,
};
use crate::ops::Op;
use crate::reader::{next_record, opened, parse_header, ReaderView, ReportReader};
use crate::report::{record_views, report_input, ComparableRecord, RecordView};
use crate::schedule::ScheduledStep;
use crate::selection::{
    drawn, ensure_selected_fixtures_available, fixtures_text, is_sample, sample_case_ids, sample_size,
    selected_run_fixture_id, OracleCaseSelection, MAX_SAMPLE_DRAWS, THEORY_TRIAL_1_FIXTURE_COUNT,
};
use crate::suite::{known_scheduled_case_count, suite, PlannedCase};
use crate::text::{dec, push_dec};

verus! {

/// What a sample is to be: of so many cases, these.
pub struct SamplePlan {
    pub len: usize,
    pub total_cases: usize,
    pub ids: BTreeSet<usize>,
    pub target: usize,
}

/// The number of cases of the suites that can be sampled in this way.
pub open spec fn kept_count(len: usize) -> Option<usize> {
    match len {
        1 => Some(4usize),
        2 => Some(72),
        3 => Some(1_636),
        4 => Some(43_248),
        5 => Some(1_261_228),
        _ => None,
    }
}

impl SamplePlan {
    pub open spec fn wf(&self) -> bool {
        self.ids@.finite() && self.target == self.ids@.len()
    }

    /// Chooses `target_count` cases of chains of length `len`.
    pub fn new(len: usize, target_count: usize, seed: u64) -> (r: Result<Self, String>)
        ensures
            match r {
                Ok(plan) => {
                    &&& plan.wf()
                    &&& target_count > 0
                    &&& plan.len == len
                    &&& kept_count(len) == Some(plan.total_cases)
                    &&& plan.total_cases == suite(len as nat).len()
                    &&& forall|id: usize| #[trigger]
                        plan.ids@.contains(id) ==> 1 <= id <= plan.total_cases
                    &&& is_sample(plan.ids@, plan.total_cases, target_count, seed)
                    &&& plan.target == sample_size(plan.total_cases, target_count)
                    &&& plan.target <= THEORY_TRIAL_1_FIXTURE_COUNT
                },
                Err(e) => if target_count == 0 {
                    e@ == "--oracle-sample-count must be greater than zero"@
                } else {
                    match kept_count(len) {
                        None => e@
                            == "streamed sampling does not have a cached case count for L="@ + dec(
                            len as nat,
                        ),
                        Some(total) => {
                            let n = sample_size(total, target_count);
                            ||| n > THEORY_TRIAL_1_FIXTURE_COUNT && e@ == fixtures_text(n as nat)
                            ||| n <= total / 2 && drawn(
                                seed,
                                total,
                                MAX_SAMPLE_DRAWS as nat,
                            ).len() < n && e@ == "oracle sample needs too many draws"@
                        },
                    }
                },
            },
    {
        if target_count == 0 {
            return Err("--oracle-sample-count must be greater than zero".to_string());
        }
        let total_cases: usize = match known_scheduled_case_count(len) {
            Some(total) => total,
            None => {
                let mut e =
                    "streamed sampling does not have a cached case count for L=".to_string();
                push_dec(&mut e, len as u64);
                return Err(e);
            },
        };
        let ids = match sample_case_ids(total_cases, target_count, seed) {
            Ok(ids) => ids,
            Err(e) => {
                return Err(e);
            },
        };
        let target: usize = ids.len();
        let selected = OracleCaseSelection::Sample { count: target, ids: ids.clone() };
        match ensure_selected_fixtures_available(&selected) {
            Ok(()) => Ok(SamplePlan { len, total_cases, ids, target }),
            Err(e) => Err(e),
        }
    }
}

/// Where a scan stands.
#[verifier::ext_equal]
pub struct ScanView {
    pub reader: ReaderView,
    pub expected: Seq<RecordView>,
    pub actual: Option<Seq<RecordView>>,
    pub selected: Option<u64>,
    pub count: nat,
    pub current: usize,
}

/// What a scan came upon.
pub enum ScanStep {
    /// A record that needs nothing done.
    Passed,
    /// A case that is not in the sample.
    Skipped,
    /// A case of the sample, to be run.
    Run { case: PlannedCase },
    /// The end of the report.
    Ended { cases: usize },
}

pub enum ScanStepView {
    Passed,
    Skipped,
    Run { case_id: usize, mask: usize, fixture_id: nat, chain: Seq<Op>, steps: Seq<ScheduledStep> },
    Ended { cases: usize },
}

impl View for ScanStep {
    type V = ScanStepView;

    open spec fn view(&self) -> ScanStepView {
        match *self {
            ScanStep::Passed => ScanStepView::Passed,
            ScanStep::Skipped => ScanStepView::Skipped,
            ScanStep::Run { case } => ScanStepView::Run {
                case_id: case.case_id,
                mask: case.mask,
                fixture_id: case.fixture_id as nat,
                chain: case.chain@,
                steps: case.steps@,
            },
            ScanStep::Ended { cases } => ScanStepView::Ended { cases },
        }
    }
}

/// The verdict on the case of the sample that a scan has read, if it has. Records that name
/// a worker or a slot that does not exist cannot be judged.
pub open spec fn scan_verdict(v: ScanView) -> Result<(), Seq<char>> {
    if v.selected is Some && (v.actual matches Some(actual) && actual.len() == v.expected.len()
        && !comparable(v.expected, actual, 1)) {
        Err("oracle report names a worker or slot that does not exist"@)
    } else {
        finished_sample(v.selected, v.expected, v.actual)
    }
}

/// A scan once the case it had read was judged.
pub open spec fn judged(v: ScanView) -> ScanView {
    if v.selected is Some {
        ScanView { selected: None, expected: Seq::empty(), actual: None, ..v }
    } else {
        v
    }
}

/// One record further.
pub open spec fn scan_step(
    ids: Set<usize>,
    total_cases: usize,
    path: Seq<char>,
    v: ScanView,
) -> Result<(ScanStepView, ScanView), Seq<char>> {
    match next_record(path, v.reader) {
        Err(e) => Err(e),
        Ok(None) => Err(
            "expected oracle report "@ + path + " ended without an end record after case "@ + dec(
                v.current as nat,
            ),
        ),
        Ok(Some((record, _, reader))) => match record {
            RecordView::Case { case_id, mask } => match scan_verdict(v) {
                Err(e) => Err(e),
                Ok(()) => {
                    let v1 = ScanView { reader, current: case_id as usize, ..judged(v) };
                    if ids.contains(case_id as usize) {
                        Ok(
                            (
                                ScanStepView::Run {
                                    case_id: case_id as usize,
                                    mask: mask as usize,
                                    fixture_id: if total_cases <= THEORY_TRIAL_1_FIXTURE_COUNT {
                                        (case_id as usize) as nat
                                    } else {
                                        v.count + 1
                                    },
                                    chain: reader.chain,
                                    steps: reader.steps,
                                },
                                ScanView {
                                    selected: Some(case_id),
                                    expected: v1.expected.push(record),
                                    count: v.count + 1,
                                    ..v1
                                },
                            ),
                        )
                    } else {
                        Ok((ScanStepView::Skipped, v1))
                    }
                },
            },
            RecordView::End { cases } => match scan_verdict(v) {
                Err(e) => Err(e),
                Ok(()) => if cases as usize != total_cases {
                    Err(
                        "expected report total cases "@ + dec((cases as usize) as nat)
                            + " does not match active catalog count "@ + dec(total_cases as nat),
                    )
                } else {
                    Ok(
                        (
                            ScanStepView::Ended { cases: cases as usize },
                            ScanView { reader, ..judged(v) },
                        ),
                    )
                },
            },
            _ => Ok(
                (
                    ScanStepView::Passed,
                    ScanView {
                        reader,
                        expected: if v.selected is Some {
                            v.expected.push(record)
                        } else {
                            v.expected
                        },
                        ..v
                    },
                ),
            ),
        },
    }
}

pub struct SampleScan {
    pub plan: SamplePlan,
    pub reader: ReportReader,
    pub expected_records: Vec<ComparableRecord>,
    pub actual_records: Option<Vec<ComparableRecord>>,
    pub selected_case_id: Option<u64>,
    pub selected_count: usize,
    pub current_case_id: usize,
}

impl SampleScan {
    pub open spec fn wf(&self) -> bool {
        &&& self.reader.wf()
        &&& self.selected_count + self.reader@.input.rest.len() <= usize::MAX
    }

    pub open spec fn view(&self) -> ScanView {
        ScanView {
            reader: self.reader@,
            expected: record_views(self.expected_records@),
            actual: optional_views(self.actual_records),
            selected: self.selected_case_id,
            count: self.selected_count as nat,
            current: self.current_case_id,
        }
    }

    /// A scan of the expected report that stands at `path` and whose file holds `file`.
    pub fn open(plan: SamplePlan, path: &str, file: Vec<u8>) -> (r: Result<Self, String>)
        ensures
            ({
                let (parsed, after) = parse_header(report_input(file@), path@);
                match parsed {
                    Err(e) => r matches Err(f) && f@ == e,
                    Ok((chain_len, _)) => if chain_len != plan.len {
                        r matches Err(f) && f@
                            == "oracle chain length mismatch: expected report has "@ + dec(
                            chain_len as nat,
                        ) + ", requested "@ + dec(plan.len as nat)
                    } else {
                        r matches Ok(scan) && scan.wf() && scan.plan == plan && scan.reader.path@
                            == path@ && scan@ == (ScanView {
                            reader: opened(after, chain_len),
                            expected: Seq::empty(),
                            actual: None,
                            selected: None,
                            count: 0,
                            current: 0,
                        })
                    },
                }
            }),
    {
        let reader = match ReportReader::open(path, file) {
            Ok(reader) => reader,
            Err(e) => {
                return Err(e);
            },
        };
        if reader.chain_len != plan.len {
            let mut e = "oracle chain length mismatch: expected report has ".to_string();
            push_dec(&mut e, reader.chain_len as u64);
            e.append(", requested ");
            push_dec(&mut e, plan.len as u64);
            return Err(e);
        }
        let total: usize = reader.source.bytes.len();
        let scan = SampleScan {
            plan,
            reader,
            expected_records: Vec::new(),
            actual_records: None,
            selected_case_id: None,
            selected_count: 0,
            current_case_id: 0,
        };
        assert(record_views(scan.expected_records@) =~= Seq::empty());
        assert(scan.reader@.input.rest.len() <= total);
        Ok(scan)
    }

    /// The records that running the current case gave.
    pub fn took(&mut self, records: Vec<ComparableRecord>)
        requires
            old(self).wf(),
        ensures
            final(self).wf(),
            final(self).plan == old(self).plan,
            final(self).reader == old(self).reader,
            final(self)@ == (ScanView { actual: Some(record_views(records@)), ..old(self)@ }),
    {
        self.actual_records = Some(records);
    }

    fn judge(&mut self) -> (r: Result<(), String>)
        requires
            old(self).wf(),
        ensures
            final(self).wf(),
            final(self).plan == old(self).plan,
            final(self).reader == old(self).reader,
            verdict_text(r) == scan_verdict(old(self)@),
            r is Ok ==> final(self)@ == judged(old(self)@),
    {
        if self.selected_case_id.is_some() {
            if let Some(actual) = &self.actual_records {
                if actual.len() == self.expected_records.len() && !can_compare(
                    self.expected_records.as_slice(),
                    actual.as_slice(),
                    1,
                ) {
                    return Err(
                        "oracle report names a worker or slot that does not exist".to_string(),
                    );
                }
            }
        }
        let selected = self.selected_case_id;
        let verdict = finish_streamed_sample_case(
            selected,
            &mut self.expected_records,
            &mut self.actual_records,
        );
        match verdict {
            Ok(()) => {
                self.selected_case_id = None;
                assert(selected is Some ==> record_views(self.expected_records@) =~= Seq::empty());
                assert(self@ =~= judged(old(self)@));
                Ok(())
            },
            Err(e) => Err(e),
        }
    }

    /// Reads one record further.
    pub fn step(&mut self) -> (r: Result<ScanStep, String>)
        requires
            old(self).wf(),
        ensures
            r is Ok ==> final(self).wf(),
            final(self).plan == old(self).plan,
            final(self).reader.path == old(self).reader.path,
            match r {
                Ok(step) => scan_step(
                    old(self).plan.ids@,
                    old(self).plan.total_cases,
                    old(self).reader.path@,
                    old(self)@,
                ) == Ok::<(ScanStepView, ScanView), Seq<char>>((step@, final(self)@)),
                Err(e) => scan_step(
                    old(self).plan.ids@,
                    old(self).plan.total_cases,
                    old(self).reader.path@,
                    old(self)@,
                ) == Err::<(ScanStepView, ScanView), Seq<char>>(e@),
            },
            r is Ok ==> final(self)@.reader.input.rest.len() < old(self)@.reader.input.rest.len(),
    {
        let ghost start = self@;
        let record = match self.reader.read_record() {
            Err(e) => {
                return Err(e);
            },
            Ok(None) => {
                let mut e = "expected oracle report ".to_string();
                e.append(self.reader.path.as_str());
                e.append(" ended without an end record after case ");
                push_dec(&mut e, self.current_case_id as u64);
                return Err(e);
            },
            Ok(Some((record, _))) => record,
        };
        let ghost reader = self.reader@;
        assert(self@ =~= (ScanView { reader, ..start }));
        assert(scan_verdict(self@) == scan_verdict(start));
        let ghost view = record@;
        match &record {
            ComparableRecord::Case { case_id, mask } => {
                let case_id: u64 = *case_id;
                let mask: u64 = *mask;
                match self.judge() {
                    Ok(()) => {},
                    Err(e) => {
                        return Err(e);
                    },
                }
                self.current_case_id = case_id as usize;
                let ghost v1 = ScanView { reader, current: case_id as usize, ..judged(start) };
                assert(self@ =~= v1);
                if self.plan.ids.contains(&self.current_case_id) {
                    let ghost before = record_views(self.expected_records@);
                    self.selected_count = self.selected_count + 1;
                    let fixture_id: usize = selected_run_fixture_id(
                        self.plan.total_cases,
                        case_id as usize,
                        self.selected_count,
                    );
                    self.selected_case_id = Some(case_id);
                    self.expected_records.push(record);
                    let chain = self.reader.current_chain.clone();
                    let steps = self.reader.current_steps.clone();
                    proof {
                        assert(record_views(self.expected_records@) =~= before.push(view));
                        assert(chain@ =~= self.reader.current_chain@);
                        assert(steps@ =~= self.reader.current_steps@);
                        assert(self@ =~= (ScanView {
                            selected: Some(case_id),
                            expected: v1.expected.push(view),
                            count: start.count + 1,
                            ..v1
                        }));
                    }
                    return Ok(
                        ScanStep::Run {
                            case: PlannedCase {
                                case_id: case_id as usize,
                                mask: mask as usize,
                                fixture_id,
                                chain,
                                steps,
                            },
                        },
                    );
                }
                Ok(ScanStep::Skipped)
            },
            ComparableRecord::End { cases } => {
                let cases: usize = *cases as usize;
                match self.judge() {
                    Ok(()) => {},
                    Err(e) => {
                        return Err(e);
                    },
                }
                assert(self@ =~= (ScanView { reader, ..judged(start) }));
                if cases != self.plan.total_cases {
                    let mut e = "expected report total cases ".to_string();
                    push_dec(&mut e, cases as u64);
                    e.append(" does not match active catalog count ");
                    push_dec(&mut e, self.plan.total_cases as u64);
                    return Err(e);
                }
                Ok(ScanStep::Ended { cases })
            },
            _ => {
                if self.selected_case_id.is_some() {
                    let ghost before = record_views(self.expected_records@);
                    self.expected_records.push(record);
                    assert(record_views(self.expected_records@) =~= before.push(view));
                }
                Ok(ScanStep::Passed)
            },
        }
    }

    /// Whether the report held the whole sample.
    pub fn finish(&self) -> (r: Result<(), String>)
        ensures
            verdict_text(r) == if self.selected_count != self.plan.target {
                Err(
                    "sampled "@ + dec(self.selected_count as nat) + " cases but expected "@ + dec(
                        self.plan.target as nat,
                    ),
                )
            } else {
                Ok(())
            },
    {
        if self.selected_count != self.plan.target {
            let mut e = "sampled ".to_string();
            push_dec(&mut e, self.selected_count as u64);
            e.append(" cases but expected ");
            push_dec(&mut e, self.plan.target as u64);
            return Err(e);
        }
        Ok(())
    }
}

} // verus!
