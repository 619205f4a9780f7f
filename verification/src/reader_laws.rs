//! What a reader of reports accepts, and how a scan judges the cases that it reads.

use vstd::prelude::*;

use crate::codec::{le_value, parse_exact, parse_u32, Input};
use crate::compare_laws::{equal_fields, lost_after_delete};
use crate::reader::{
    next_record, next_result, next_snapshot, parse_header, rest_of_report, ReaderView,
};
use crate::sample::{scan_step, scan_verdict, ScanStepView, ScanView};

verus! {

/// A report begins with its eight bytes and the first version; anything else is refused.
pub proof fn law_reports_begin_with_their_magic(input: Input, path: Seq<char>)
    requires
        parse_header(input, path).0 is Ok,
    ensures
        input.rest.len() >= 20,
        input.rest.take(12) == seq![70u8, 83, 88, 79, 82, 66, 50, 0, 1, 0, 0, 0],
{
    let after = input.at(input.rest.skip(8));
    assert(input.rest.take(8) == crate::report::report_magic());
    assert(parse_u32(after).0 is Ok);
    let bytes = after.rest.take(4);
    assert(le_value(bytes) == 1) by {
        crate::codec::lemma_le_bound(bytes);
        crate::codec::lemma_byte_weights();
    }
    reveal_with_fuel(le_value, 5);
    assert(bytes.drop_first()[0] == bytes[1]);
    assert(bytes.drop_first().drop_first()[0] == bytes[2]);
    assert(bytes.drop_first().drop_first().drop_first()[0] == bytes[3]);
    assert(bytes[0] == 1 && bytes[1] == 0 && bytes[2] == 0 && bytes[3] == 0);
    let head = input.rest.take(12);
    assert forall|i: int| 0 <= i < 12 implies head[i] == seq![
        70u8,
        83,
        88,
        79,
        82,
        66,
        50,
        0,
        1,
        0,
        0,
        0,
    ][i] by {
        if i < 8 {
            assert(head[i] == input.rest.take(8)[i]);
        } else {
            assert(head[i] == bytes[i - 8]);
        }
    }
    assert(head =~= seq![70u8, 83, 88, 79, 82, 66, 50, 0, 1, 0, 0, 0]);
}

/// A record has one of four tags, and its kind is that of its tag.
pub proof fn law_records_have_the_kind_of_their_tag(path: Seq<char>, v: ReaderView)
    requires
        v.input.rest.len() > 0,
    ensures
        !(1 <= v.input.rest[0] <= 4) ==> next_record(path, v) is Err,
        next_record(path, v) !is Err ==> next_record(path, v)->Ok_0 is Some,
        next_record(path, v) matches Ok(Some((record, snapshot, _))) ==> {
            &&& record is Case <==> v.input.rest[0] == 1
            &&& record is Result <==> v.input.rest[0] == 2
            &&& record is Snapshot <==> v.input.rest[0] == 3
            &&& record is End <==> v.input.rest[0] == 4
            &&& snapshot is Some <==> record is Snapshot
        },
{
    reveal(next_record);
}

/// A report ends where its bytes do, unless they could not be read.
pub proof fn law_reports_end_with_their_bytes(path: Seq<char>, v: ReaderView)
    requires
        v.input.rest.len() == 0,
    ensures
        v.input.fault is None <==> next_record(path, v) is Ok,
        next_record(path, v) matches Ok(next) ==> next is None,
{
    reveal(next_record);
}

/// A report in which some record cannot be read cannot be read.
pub proof fn law_broken_records_break_the_report(path: Seq<char>, v: ReaderView)
    ensures
        next_record(path, v) is Err ==> rest_of_report(path, v) is Err,
        next_record(path, v) matches Ok(Some((_, _, after))) ==> (rest_of_report(path, after) is Err
            ==> rest_of_report(path, v) is Err),
        next_record(path, v) matches Ok(Some((record, _, after))) ==> (rest_of_report(
            path,
            v,
        ) matches Ok((records, _)) ==> records.len() > 0 && records[0] == record && rest_of_report(
            path,
            after,
        )->Ok_0.0 == records.skip(1)),
{
    if let Ok(Some((record, _, after))) = next_record(path, v) {
        crate::reader::lemma_record_shrinks(path, v);
        if let Ok((records, _)) = rest_of_report(path, v) {
            assert(rest_of_report(path, after)->Ok_0.0 =~= records.skip(1));
        }
    }
}

/// Results belong to the steps of their case, one after the other: the first to the first step.
/// There are no more of them than steps.
pub proof fn law_results_belong_to_their_steps(path: Seq<char>, v: ReaderView)
    requires
        v.steps.len() < u32::MAX,
    ensures
        next_result(path, v) matches Ok((record, _, after)) ==> {
            &&& v.idx < v.steps.len()
            &&& record is Result
            &&& record->Result_step == v.idx + 1
            &&& record->Result_op == v.steps[v.idx as int].op
            &&& v.steps[v.idx as int].worker <= u32::MAX ==> record->Result_worker
                == v.steps[v.idx as int].worker
            &&& after.idx == v.idx + 1
            &&& after.steps == v.steps
        },
        v.idx >= v.steps.len() ==> next_result(path, v) is Err,
{
}

/// A snapshot belongs to the case that it stands in; a missing file has no length and no hash.
pub proof fn law_snapshots_belong_to_their_case(v: ReaderView)
    ensures
        next_snapshot(v) matches Ok((record, snapshot, after)) ==> {
            &&& record is Snapshot
            &&& record->Snapshot_case_id == v.case_id
            &&& !record->Snapshot_exists ==> record->Snapshot_len == 0 && record->Snapshot_hash == 0
            &&& snapshot is Some
            &&& snapshot->0.file == record->Snapshot_file
            &&& snapshot->0.exists == record->Snapshot_exists
            &&& snapshot->0.len == record->Snapshot_len
            &&& snapshot->0.hash == record->Snapshot_hash
            &&& snapshot->0.rel == record->Snapshot_rel
            &&& v.case_id <= usize::MAX ==> snapshot->0.case_id == v.case_id
            &&& after.steps == v.steps && after.idx == v.idx
        },
{
}

/// As many bytes are read as are asked for, those that come next, or none.
pub proof fn law_reads_take_the_next_bytes(input: Input, n: nat)
    ensures
        parse_exact(input, n).0 is Ok <==> n <= input.rest.len(),
        parse_exact(input, n) matches (Ok(bytes), after) ==> bytes.len() == n && bytes + after.rest
            == input.rest,
{
    if n <= input.rest.len() {
        assert(input.rest.take(n as int) + input.rest.skip(n as int) =~= input.rest);
    }
}

/// A sampled case that a scan lets pass ran as the report says: there are as many records, and
/// each has the fields of its counterpart, but for the known difference.
pub proof fn law_scan_passes_equal_cases(v: ScanView, i: int)
    requires
        v.selected is Some,
        scan_verdict(v) is Ok,
        0 <= i < v.expected.len(),
    ensures
        v.actual is Some,
        v.actual->0.len() == v.expected.len(),
        equal_fields(v.expected[i], v.actual->0[i]) || lost_after_delete(
            v.expected,
            i,
            v.expected[i],
            v.actual->0[i],
        ),
{
    crate::compare_laws::law_passing_sample_is_equal(
        v.selected->0,
        v.expected,
        v.actual->0,
        i,
    );
}

/// A scan goes on to the next case, and to the end, only where the sampled case before it
/// passed; and to the end only where the report has as many cases as there are.
pub proof fn law_scan_judges_every_case(
    ids: Set<usize>,
    total_cases: usize,
    path: Seq<char>,
    v: ScanView,
)
    ensures
        scan_step(ids, total_cases, path, v) matches Ok((step, after)) ==> {
            &&& step !is Passed ==> scan_verdict(v) is Ok
            &&& step !is Passed && v.selected is Some ==> after.actual is None
            &&& step matches ScanStepView::Ended { cases } ==> cases == total_cases
            &&& step matches ScanStepView::Run { case_id, .. } ==> ids.contains(case_id)
                && after.count == v.count + 1 && after.selected is Some && after.selected->0 as usize
                == case_id
                && after.expected.len() > 0 && after.expected.last() is Case
            &&& step is Skipped ==> after.count == v.count && after.selected is None
            &&& step is Passed ==> after.count == v.count && after.selected == v.selected
                && after.actual == v.actual
            &&& step is Passed && v.selected is Some ==> after.expected.len() == v.expected.len()
                + 1 && after.expected.drop_last() == v.expected
            &&& step is Passed && v.selected is None ==> after.expected == v.expected
        },
        next_record(path, v.reader) matches Ok(Some((record, _, after))) ==> {
            &&& record is Case && record->Case_case_id <= usize::MAX && scan_verdict(v) is Ok ==> (
            scan_step(ids, total_cases, path, v) matches Ok((step, _)) && (step is Run
                <==> ids.contains(record->Case_case_id as usize)) && (step is Run || step is Skipped)
                && (step matches ScanStepView::Run { case_id, mask, chain, steps, .. } ==> case_id
                == record->Case_case_id && chain == after.chain && steps == after.steps))
            &&& record is End && record->End_cases <= usize::MAX && scan_verdict(v) is Ok ==> (
            scan_step(ids, total_cases, path, v) is Ok <==> record->End_cases == total_cases)
            &&& record is Case || record is End ==> (scan_verdict(v) is Err ==> scan_step(
                ids,
                total_cases,
                path,
                v,
            ) is Err)
        },
        next_record(path, v.reader) is Err ==> scan_step(ids, total_cases, path, v) is Err,
        next_record(path, v.reader) matches Ok(None) ==> scan_step(ids, total_cases, path, v) is Err,
{
    if let Ok((step, after)) = scan_step(ids, total_cases, path, v) {
        if step is Passed && v.selected is Some {
            assert(after.expected.drop_last() =~= v.expected);
        }
    }
}

/// A case of a sample has the fixtures of its own number where there are as many fixtures as
/// cases, and else those of its place in the sample.
pub proof fn law_sampled_cases_have_their_fixtures(
    ids: Set<usize>,
    total_cases: usize,
    path: Seq<char>,
    v: ScanView,
)
    ensures
        scan_step(ids, total_cases, path, v) matches Ok(
            (ScanStepView::Run { case_id, fixture_id, .. }, after),
        ) ==> {
            &&& total_cases <= 20_000 ==> fixture_id == case_id
            &&& total_cases > 20_000 ==> fixture_id == after.count
        },
{
}

} // verus!
