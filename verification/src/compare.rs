//! Comparing two reports.

use std::collections::BTreeSet;
use vstd::prelude::*;
use vstd::string::*;

use crate::debug::record_text;
use crate::known::{can_decide, decidable, ignore_known_error, known_difference};
use crate::report::{record_views, same_record, ComparableRecord, RecordView};
use crate::text::{dec, dec_int, push_dec, push_dec_int, push_dec_next, texts};

verus! {

/// Mismatches that a comparison shows at most.
pub const MAX_REPORT_MISMATCHES: usize = 20;

/// The case that a record names.
pub open spec fn case_of(record: RecordView) -> Option<u64> {
    match record {
        RecordView::Case { case_id, .. } => Some(case_id),
        RecordView::Snapshot { case_id, .. } => Some(case_id),
        _ => None,
    }
}

pub fn record_case_id(record: &ComparableRecord) -> (r: Option<u64>)
    ensures
        r == case_of(record@),
{
    match record {
        ComparableRecord::Case { case_id, .. } => Some(*case_id),
        ComparableRecord::Snapshot { case_id, .. } => Some(*case_id),
        ComparableRecord::Result { .. } | ComparableRecord::End { .. } => None,
    }
}

/// The last case that starts in `records`.
pub open spec fn last_case(records: Seq<RecordView>) -> Option<u64>
    decreases records.len(),
{
    if records.len() == 0 {
        None
    } else {
        match records.last() {
            RecordView::Case { case_id, .. } => Some(case_id),
            _ => last_case(records.drop_last()),
        }
    }
}

/// The case in which the record at `record_idx` stands.
pub fn current_case_id(records: &[ComparableRecord], record_idx: usize) -> (r: Option<u64>)
    requires
        record_idx < records@.len(),
    ensures
        r == last_case(record_views(records@).take(record_idx + 1)),
{
    let ghost views = record_views(records@);
    let total: usize = records.len();
    assert(record_idx < total);
    let mut i: usize = record_idx + 1;
    while i > 0
        invariant
            i <= records@.len(),
            views == record_views(records@),
            last_case(views.take(record_idx + 1)) == last_case(views.take(i as int)),
        decreases i,
    {
        assert(views.take(i as int).drop_last() =~= views.take(i as int - 1));
        assert(views.take(i as int).last() == records@[i as int - 1]@);
        if let ComparableRecord::Case { case_id, .. } = &records[i - 1] {
            return Some(*case_id);
        }
        i = i - 1;
    }
    None
}

/// The line of a case's program for the result of a step.
pub open spec fn result_line(record: RecordView) -> Seq<char> {
    match record {
        RecordView::Result { step, worker, op, rc, err, data } => "    -> step "@ + dec(
            step as nat,
        ) + " T"@ + dec((worker + 1) as nat) + " "@ + op.text() + " rc="@ + dec_int(rc as int)
            + " err="@ + err.name_text() + if data.len() == 0 {
            Seq::empty()
        } else {
            " data_len="@ + dec(data.len())
        },
        _ => Seq::empty(),
    }
}

/// The lines of the case `case_id`, given whether the records are in it.
pub open spec fn program_lines(records: Seq<RecordView>, case_id: u64, in_case: bool) -> Seq<
    Seq<char>,
>
    decreases records.len(),
{
    if records.len() == 0 {
        Seq::empty()
    } else {
        let rest = records.drop_first();
        match records[0] {
            RecordView::Case { case_id: id, mask } => if id == case_id {
                seq!["  mask="@ + dec(mask as nat)] + program_lines(rest, case_id, true)
            } else if in_case {
                Seq::empty()
            } else {
                program_lines(rest, case_id, false)
            },
            RecordView::Result { .. } => if in_case {
                seq![result_line(records[0])] + program_lines(rest, case_id, true)
            } else {
                program_lines(rest, case_id, false)
            },
            _ => program_lines(rest, case_id, in_case),
        }
    }
}

fn line_of_result(record: &ComparableRecord) -> (s: String)
    ensures
        s@ == result_line(record@),
{
    match record {
        ComparableRecord::Result { step, worker, op, rc, err, data } => {
            let mut s = "    -> step ".to_string();
            push_dec(&mut s, *step as u64);
            s.append(" T");
            push_dec_next(&mut s, *worker as u64);
            s.append(" ");
            s.append(op.pseudocode().as_str());
            s.append(" rc=");
            push_dec_int(&mut s, *rc);
            s.append(" err=");
            s.append(err.name());
            if !data.is_empty() {
                let ghost before = s@;
                s.append(" data_len=");
                push_dec(&mut s, data.len() as u64);
                assert(s@ =~= before + (" data_len="@ + dec(data@.len())));
            } else {
                assert(s@ =~= s@ + Seq::empty());
            }
            s
        },
        _ => {
            let s = String::new();
            assert(s@ =~= Seq::empty());
            s
        },
    }
}

/// The program of a case with what each step returned, line by line.
pub fn case_program(records: &[ComparableRecord], case_id: u64) -> (lines: Vec<String>)
    ensures
        texts(lines@) == program_lines(record_views(records@), case_id, false),
{
    let ghost views = record_views(records@);
    let mut in_case = false;
    let mut lines: Vec<String> = Vec::new();
    let mut i: usize = 0;
    assert(views.skip(0) =~= views);
    assert(texts(lines@) =~= Seq::empty());
    while i < records.len()
        invariant
            i <= records@.len(),
            views == record_views(records@),
            program_lines(views, case_id, false) =~= texts(lines@) + program_lines(
                views.skip(i as int),
                case_id,
                in_case,
            ),
        decreases records@.len() - i,
    {
        let ghost before = texts(lines@);
        assert(views.skip(i as int).drop_first() =~= views.skip(i as int + 1));
        assert(views.skip(i as int)[0] == records@[i as int]@);
        match &records[i] {
            ComparableRecord::Case { case_id: id, mask } => {
                if *id == case_id {
                    in_case = true;
                    let mut line = "  mask=".to_string();
                    push_dec(&mut line, *mask);
                    lines.push(line);
                    assert(texts(lines@) =~= before.push(line@));
                } else if in_case {
                    assert(texts(lines@) + Seq::empty() =~= texts(lines@));
                    return lines;
                }
            },
            ComparableRecord::Result { .. } => {
                if in_case {
                    let line = line_of_result(&records[i]);
                    lines.push(line);
                    assert(texts(lines@) =~= before.push(line@));
                }
            },
            _ => {},
        }
        i = i + 1;
    }
    assert(texts(lines@) + Seq::empty() =~= texts(lines@));
    lines
}

/// The case that a mismatch belongs to.
pub open spec fn mismatch_case(
    record_idx: int,
    records: Seq<RecordView>,
    expected: RecordView,
    actual: RecordView,
) -> Option<u64> {
    match case_of(expected) {
        Some(id) => Some(id),
        None => match case_of(actual) {
            Some(id) => Some(id),
            None => last_case(records.take(record_idx + 1)),
        },
    }
}

/// The lines, each behind a line feed.
pub open spec fn on_lines(lines: Seq<Seq<char>>) -> Seq<char>
    decreases lines.len(),
{
    if lines.len() == 0 {
        Seq::empty()
    } else {
        on_lines(lines.drop_last()) + "\n"@ + lines.last()
    }
}

#[verifier::opaque]
pub open spec fn mismatch_text(
    record_no: nat,
    record_idx: int,
    records: Seq<RecordView>,
    expected: RecordView,
    actual: RecordView,
) -> Seq<char> {
    "mismatch at record "@ + dec(record_no) + "\nexpected: "@ + record_text(expected)
        + "\nactual:   "@ + record_text(actual) + match mismatch_case(
        record_idx,
        records,
        expected,
        actual,
    ) {
        Some(case_id) => "\ncase "@ + dec(case_id as nat) + " program:"@ + on_lines(
            program_lines(records, case_id, false),
        ),
        None => Seq::empty(),
    }
}

fn push_on_lines(out: &mut String, lines: &Vec<String>)
    ensures
        final(out)@ == old(out)@ + on_lines(texts(lines@)),
{
    let mut i: usize = 0;
    assert(texts(lines@).take(0) =~= Seq::empty());
    assert(out@ =~= old(out)@ + Seq::empty());
    while i < lines.len()
        invariant
            i <= lines@.len(),
            out@ == old(out)@ + on_lines(texts(lines@).take(i as int)),
        decreases lines@.len() - i,
    {
        assert(texts(lines@).take(i as int + 1).drop_last() =~= texts(lines@).take(i as int));
        out.append("\n");
        out.append(lines[i].as_str());
        i = i + 1;
        assert(out@ =~= old(out)@ + on_lines(texts(lines@).take(i as int)));
    }
    assert(texts(lines@).take(i as int) =~= texts(lines@));
}

pub fn format_mismatch(
    record_no: usize,
    record_idx: usize,
    records: &[ComparableRecord],
    expected: &ComparableRecord,
    actual: &ComparableRecord,
) -> (out: String)
    requires
        case_of(expected@) is None && case_of(actual@) is None ==> record_idx < records@.len(),
    ensures
        out@ == mismatch_text(
            record_no as nat,
            record_idx as int,
            record_views(records@),
            expected@,
            actual@,
        ),
{
    reveal(mismatch_text);
    let mut out = "mismatch at record ".to_string();
    push_dec(&mut out, record_no as u64);
    out.append("\nexpected: ");
    out.append(expected.debug().as_str());
    out.append("\nactual:   ");
    out.append(actual.debug().as_str());
    let case = match record_case_id(expected) {
        Some(id) => Some(id),
        None => match record_case_id(actual) {
            Some(id) => Some(id),
            None => current_case_id(records, record_idx),
        },
    };
    let ghost before = out@;
    match case {
        Some(case_id) => {
            out.append("\ncase ");
            push_dec(&mut out, case_id);
            out.append(" program:");
            let lines = case_program(records, case_id);
            push_on_lines(&mut out, &lines);
            assert(out@ =~= before + ("\ncase "@ + dec(case_id as nat) + " program:"@ + on_lines(
                program_lines(record_views(records@), case_id, false),
            )));
        },
        None => {
            assert(out@ =~= before + Seq::empty());
        },
    }
    out
}

/// Whether the records at `i` differ in a way that counts.
pub open spec fn differs_at(expected: Seq<RecordView>, actual: Seq<RecordView>, i: int) -> bool {
    !same_record(expected[i], actual[i]) && !known_difference(expected, i, expected[i], actual[i])
}

/// Where among the first `n` records the two lists differ.
pub open spec fn differences(expected: Seq<RecordView>, actual: Seq<RecordView>, n: nat) -> Seq<int>
    decreases n,
{
    if n == 0 {
        Seq::empty()
    } else {
        let before = differences(expected, actual, (n - 1) as nat);
        if differs_at(expected, actual, n - 1) {
            before.push(n - 1)
        } else {
            before
        }
    }
}

/// Whether each difference, up to the one that brings their number to `limit`, can be told
/// from the known one.
pub open spec fn comparable(
    expected: Seq<RecordView>,
    actual: Seq<RecordView>,
    limit: nat,
) -> bool {
    forall|i: int|
        0 <= i < expected.len() && differences(expected, actual, i as nat).len() < limit
            && !same_record(#[trigger] expected[i], actual[i]) ==> decidable(
            expected,
            i,
            expected[i],
            actual[i],
        )
}

/// The texts of the mismatches at `places`.
pub open spec fn mismatch_texts(
    expected: Seq<RecordView>,
    actual: Seq<RecordView>,
    places: Seq<int>,
) -> Seq<Seq<char>> {
    places.map_values(
        |i: int| mismatch_text((i + 1) as nat, i, expected, expected[i], actual[i]),
    )
}

/// The first `limit` mismatches, or fewer where there are fewer.
pub open spec fn first_mismatches(
    expected: Seq<RecordView>,
    actual: Seq<RecordView>,
    limit: nat,
) -> Seq<Seq<char>> {
    let places = differences(expected, actual, expected.len());
    mismatch_texts(
        expected,
        actual,
        if places.len() > limit {
            places.take(limit as int)
        } else {
            places
        },
    )
}

proof fn lemma_differences_grow(
    expected: Seq<RecordView>,
    actual: Seq<RecordView>,
    low: nat,
    high: nat,
)
    requires
        low <= high,
    ensures
        differences(expected, actual, low).len() <= differences(expected, actual, high).len(),
        differences(expected, actual, high).take(differences(expected, actual, low).len() as int)
            == differences(expected, actual, low),
    decreases high,
{
    let first = differences(expected, actual, low);
    if low < high {
        lemma_differences_grow(expected, actual, low, (high - 1) as nat);
        let before = differences(expected, actual, (high - 1) as nat);
        assert(differences(expected, actual, high).take(first.len() as int) =~= before.take(
            first.len() as int,
        ));
    } else {
        assert(first.take(first.len() as int) =~= first);
    }
}

/// The differences among the first `n` records are the first mismatches, where they are
/// all there are or as many as may be shown.
proof fn lemma_first_mismatches(
    expected: Seq<RecordView>,
    actual: Seq<RecordView>,
    n: nat,
    limit: nat,
)
    requires
        n <= expected.len(),
        differences(expected, actual, n).len() == limit || (n == expected.len() && differences(
            expected,
            actual,
            n,
        ).len() < limit),
    ensures
        first_mismatches(expected, actual, limit) == mismatch_texts(
            expected,
            actual,
            differences(expected, actual, n),
        ),
{
    lemma_differences_grow(expected, actual, n, expected.len());
    let all = differences(expected, actual, expected.len());
    if all.len() == limit {
        assert(all.take(limit as int) =~= all);
    }
}

/// The first `limit` mismatches between two lists of the same length.
pub fn find_mismatches(
    expected: &[ComparableRecord],
    actual: &[ComparableRecord],
    limit: usize,
) -> (out: Vec<String>)
    requires
        expected@.len() == actual@.len(),
        limit > 0,
        comparable(record_views(expected@), record_views(actual@), limit as nat),
    ensures
        texts(out@) == first_mismatches(
            record_views(expected@),
            record_views(actual@),
            limit as nat,
        ),
{
    let ghost e = record_views(expected@);
    let ghost a = record_views(actual@);
    let mut out: Vec<String> = Vec::new();
    let mut i: usize = 0;
    assert(texts(out@) =~= mismatch_texts(e, a, differences(e, a, 0)));
    while i < expected.len()
        invariant
            e == record_views(expected@),
            a == record_views(actual@),
            expected@.len() == actual@.len(),
            i <= expected@.len(),
            out@.len() < limit,
            comparable(e, a, limit as nat),
            texts(out@) == mismatch_texts(e, a, differences(e, a, i as nat)),
        decreases expected@.len() - i,
    {
        assert(e[i as int] == expected@[i as int]@);
        assert(a[i as int] == actual@[i as int]@);
        assert(texts(out@).len() == differences(e, a, i as nat).len());
        if !expected[i].same_as(&actual[i]) {
            if !ignore_known_error(expected, i, &expected[i], &actual[i]) {
                let ghost before = texts(out@);
                let ghost places = differences(e, a, i as nat);
                let text = format_mismatch(i + 1, i, expected, &expected[i], &actual[i]);
                out.push(text);
                proof {
                    assert(texts(out@) =~= before.push(text@));
                    assert(mismatch_texts(e, a, places.push(i as int)) =~= before.push(text@));
                }
                if out.len() >= limit {
                    proof {
                        lemma_first_mismatches(e, a, (i + 1) as nat, limit as nat);
                    }
                    return out;
                }
            }
        }
        i = i + 1;
    }
    proof {
        lemma_first_mismatches(e, a, e.len(), limit as nat);
    }
    out
}

/// Whether `find_mismatches` can be asked of the two lists.
pub fn can_compare(
    expected: &[ComparableRecord],
    actual: &[ComparableRecord],
    limit: usize,
) -> (r: bool)
    requires
        expected@.len() == actual@.len(),
        limit > 0,
    ensures
        r == comparable(record_views(expected@), record_views(actual@), limit as nat),
{
    let ghost e = record_views(expected@);
    let ghost a = record_views(actual@);
    let mut found: usize = 0;
    let mut i: usize = 0;
    while i < expected.len()
        invariant
            e == record_views(expected@),
            a == record_views(actual@),
            expected@.len() == actual@.len(),
            i <= expected@.len(),
            found < limit,
            found == differences(e, a, i as nat).len(),
            forall|j: int|
                0 <= j < i && !same_record(#[trigger] e[j], a[j]) ==> decidable(e, j, e[j], a[j]),
        decreases expected@.len() - i,
    {
        assert(e[i as int] == expected@[i as int]@);
        assert(a[i as int] == actual@[i as int]@);
        if !expected[i].same_as(&actual[i]) {
            if !can_decide(expected, i, &expected[i], &actual[i]) {
                return false;
            }
            if !ignore_known_error(expected, i, &expected[i], &actual[i]) {
                found = found + 1;
                if found >= limit {
                    proof {
                        assert forall|j: int|
                            0 <= j < e.len() && differences(e, a, j as nat).len() < limit
                                && !same_record(#[trigger] e[j], a[j]) implies decidable(
                            e,
                            j,
                            e[j],
                            a[j],
                        ) by {
                            if j > i {
                                lemma_differences_grow(e, a, (i + 1) as nat, j as nat);
                            }
                        }
                    }
                    return true;
                }
            }
        }
        i = i + 1;
    }
    true
}

/// The verdict on a sampled case.
pub open spec fn sampled_verdict(
    case_id: u64,
    expected: Seq<RecordView>,
    actual: Seq<RecordView>,
) -> Result<(), Seq<char>> {
    if expected.len() != actual.len() {
        Err(
            "oracle found mismatch in sampled case "@ + dec(case_id as nat)
                + ": record count mismatch: expected "@ + dec(expected.len()) + ", actual "@ + dec(
                actual.len(),
            ),
        )
    } else {
        let shown = first_mismatches(expected, actual, 1);
        if shown.len() == 0 {
            Ok(())
        } else {
            Err(
                "oracle found mismatch in sampled case "@ + dec(case_id as nat) + "\n\n"@
                    + shown[0],
            )
        }
    }
}

/// A verdict by its text.
pub open spec fn verdict_text(r: Result<(), String>) -> Result<(), Seq<char>> {
    match r {
        Ok(()) => Ok(()),
        Err(e) => Err(e@),
    }
}

pub fn compare_streamed_sample_case(
    case_id: u64,
    expected: &[ComparableRecord],
    actual: &[ComparableRecord],
) -> (r: Result<(), String>)
    requires
        expected@.len() == actual@.len() ==> comparable(
            record_views(expected@),
            record_views(actual@),
            1,
        ),
    ensures
        verdict_text(r) == sampled_verdict(case_id, record_views(expected@), record_views(actual@)),
{
    let mut e = "oracle found mismatch in sampled case ".to_string();
    push_dec(&mut e, case_id);
    if expected.len() != actual.len() {
        e.append(": record count mismatch: expected ");
        push_dec(&mut e, expected.len() as u64);
        e.append(", actual ");
        push_dec(&mut e, actual.len() as u64);
        return Err(e);
    }
    let shown = find_mismatches(expected, actual, 1);
    if shown.len() == 0 {
        assert(texts(shown@).len() == 0);
        return Ok(());
    }
    assert(texts(shown@)[0] == shown@[0]@);
    e.append("\n\n");
    e.append(shown[0].as_str());
    Err(e)
}

/// What is owed of a sampled case, once its records were read: a verdict on them and the
/// records of the run, where a case was selected at all.
pub open spec fn finished_sample(
    case_id: Option<u64>,
    expected: Seq<RecordView>,
    actual: Option<Seq<RecordView>>,
) -> Result<(), Seq<char>> {
    match case_id {
        None => Ok(()),
        Some(id) => match actual {
            None => Err("missing actual records for sampled case "@ + dec(id as nat)),
            Some(records) => sampled_verdict(id, expected, records),
        },
    }
}

pub open spec fn optional_views(records: Option<Vec<ComparableRecord>>) -> Option<Seq<RecordView>> {
    match records {
        Some(records) => Some(record_views(records@)),
        None => None,
    }
}

/// Compares the records of the sampled case, if there is one. Where they agree, both are
/// used up.
pub fn finish_streamed_sample_case(
    case_id: Option<u64>,
    expected_records: &mut Vec<ComparableRecord>,
    actual_records: &mut Option<Vec<ComparableRecord>>,
) -> (r: Result<(), String>)
    requires
        case_id is Some && (*old(actual_records) matches Some(actual) && actual@.len() == old(expected_records)@.len()) ==> comparable(
            record_views(old(expected_records)@),
            record_views((*old(actual_records))->0@),
            1,
        ),
    ensures
        verdict_text(r) == finished_sample(
            case_id,
            record_views(old(expected_records)@),
            optional_views(*old(actual_records)),
        ),
        case_id is None ==> final(expected_records)@ == old(expected_records)@ && *final(actual_records) == *old(actual_records),
        case_id is Some ==> *final(actual_records) is None,
        case_id is Some && r is Ok ==> final(expected_records)@ == Seq::<ComparableRecord>::empty(),
        case_id is Some && r is Err ==> final(expected_records)@ == old(expected_records)@,
{
    let id: u64 = match case_id {
        None => {
            return Ok(());
        },
        Some(id) => id,
    };
    match actual_records.take() {
        None => {
            let mut e = "missing actual records for sampled case ".to_string();
            push_dec(&mut e, id);
            Err(e)
        },
        Some(actual) => {
            let verdict = compare_streamed_sample_case(
                id,
                expected_records.as_slice(),
                actual.as_slice(),
            );
            match verdict {
                Ok(()) => {
                    expected_records.clear();
                    Ok(())
                },
                Err(e) => Err(e),
            }
        },
    }
}

/// The cases that start in `records`.
pub open spec fn case_ids(records: Seq<RecordView>) -> Set<u64>
    decreases records.len(),
{
    if records.len() == 0 {
        Set::empty()
    } else {
        match records.last() {
            RecordView::Case { case_id, .. } => case_ids(records.drop_last()).insert(case_id),
            _ => case_ids(records.drop_last()),
        }
    }
}

pub fn report_case_ids(records: &[ComparableRecord]) -> (ids: BTreeSet<u64>)
    ensures
        ids@ == case_ids(record_views(records@)),
{
    let ghost views = record_views(records@);
    let mut ids: BTreeSet<u64> = BTreeSet::new();
    let mut i: usize = 0;
    while i < records.len()
        invariant
            i <= records@.len(),
            views == record_views(records@),
            ids@ == case_ids(views.take(i as int)),
        decreases records@.len() - i,
    {
        assert(views.take(i as int + 1).drop_last() =~= views.take(i as int));
        assert(views.take(i as int + 1).last() == records@[i as int]@);
        if let ComparableRecord::Case { case_id, .. } = &records[i] {
            ids.insert(*case_id);
        }
        i = i + 1;
    }
    assert(views.take(i as int) =~= views);
    ids
}

/// The number of cases that the last end record gives.
pub open spec fn total_cases_of(records: Seq<RecordView>) -> Option<usize>
    decreases records.len(),
{
    if records.len() == 0 {
        None
    } else {
        match records.last() {
            RecordView::End { cases } => Some(cases as usize),
            _ => total_cases_of(records.drop_last()),
        }
    }
}

pub fn report_total_cases(records: &[ComparableRecord]) -> (r: Option<usize>)
    ensures
        r == total_cases_of(record_views(records@)),
{
    let ghost views = record_views(records@);
    let mut i: usize = records.len();
    assert(views.take(i as int) =~= views);
    while i > 0
        invariant
            i <= records@.len(),
            views == record_views(records@),
            total_cases_of(views) == total_cases_of(views.take(i as int)),
        decreases i,
    {
        assert(views.take(i as int).drop_last() =~= views.take(i as int - 1));
        assert(views.take(i as int).last() == records@[i as int - 1]@);
        if let ComparableRecord::End { cases } = &records[i - 1] {
            return Some(*cases as usize);
        }
        i = i - 1;
    }
    None
}

} // verus!
