//! What a comparison of reports that finds nothing means, field by field.

use vstd::prelude::*;

use crate::compare::{
    case_ids, comparable, differences, differs_at, first_mismatches, last_case, mismatch_case,
    mismatch_text, program_lines, result_line, sampled_verdict, total_cases_of,
    MAX_REPORT_MISMATCHES,
};
use crate::debug::record_text;
use crate::http_laws::{ends_in, starts_in};
use crate::known::{fds_replayed, known_difference, replayable, KnownOpenFd};
use crate::ops::{FileId, Op, FD_SLOTS, WORKERS};
use crate::paths::path_parts;
use crate::reader::report_of;
use crate::report::{case_name_text, same_record, RecordView};
use crate::result::OracleErr;
use crate::text::{dec, joined};
use crate::verify::{cases_found, picked, records_verdict, reports_verdict};

verus! {

/// Whether two records agree in every field; paths agree in their components.
pub open spec fn equal_fields(a: RecordView, b: RecordView) -> bool {
    match a {
        RecordView::Case { case_id, mask } => b == (RecordView::Case { case_id, mask }),
        RecordView::Result { step, worker, op, rc, err, data } => {
            &&& b is Result
            &&& b->Result_step == step
            &&& b->Result_worker == worker
            &&& b->Result_op == op
            &&& b->Result_rc == rc
            &&& b->Result_err == err
            &&& b->Result_data == data
        },
        RecordView::Snapshot { case_id, file, rel, exists, len, hash } => {
            &&& b is Snapshot
            &&& b->Snapshot_case_id == case_id
            &&& b->Snapshot_file == file
            &&& path_parts(b->Snapshot_rel) == path_parts(rel)
            &&& b->Snapshot_exists == exists
            &&& b->Snapshot_len == len
            &&& b->Snapshot_hash == hash
        },
        RecordView::End { cases } => b == (RecordView::End { cases }),
    }
}

/// Whether the record is of an operation of `worker` that succeeded.
pub open spec fn succeeded(record: RecordView, worker: u32, op: Op) -> bool {
    record matches RecordView::Result { worker: w, op: o, err: OracleErr::NoErr, .. } && w == worker
        && o == op
}

/// Whether the file under `/tmp` was deleted by the record, with success.
pub open spec fn deletes_tmp(record: RecordView) -> bool {
    record matches RecordView::Result { op: Op::Delete { file: FileId::C }, err: OracleErr::NoErr, .. }
}

/// Whether the record is an `open` of the file under `/tmp` by `worker` that succeeded.
pub open spec fn opens_tmp(record: RecordView, worker: u32) -> bool {
    record matches RecordView::Result {
        worker: w,
        op: Op::Open { file: FileId::C, .. },
        err: OracleErr::NoErr,
        ..
    } && w == worker
}

/// Whether the two records are a read or a write of one step that succeeded in the first and
/// found no file in the second, after the worker had opened the file under `/tmp` and it was
/// deleted, all in one case.
pub open spec fn lost_after_delete(
    records: Seq<RecordView>,
    i: int,
    expected: RecordView,
    actual: RecordView,
) -> bool {
    &&& expected is Result
    &&& actual is Result
    &&& actual->Result_step == expected->Result_step
    &&& actual->Result_worker == expected->Result_worker
    &&& actual->Result_op == expected->Result_op
    &&& expected->Result_op is Read || expected->Result_op is Write
    &&& expected->Result_err is NoErr
    &&& actual->Result_err is NotFound
    &&& actual->Result_rc == -1
    &&& exists|o: int, d: int|
        #![trigger records[o], records[d]]
        0 <= o < d < i && opens_tmp(records[o], expected->Result_worker) && deletes_tmp(records[d])
            && forall|k: int| o < k < i ==> !((#[trigger] records[k]) is Case)
}

/// Two records count as the same just where all their fields do.
pub proof fn law_same_records_agree_in_every_field(a: RecordView, b: RecordView)
    ensures
        same_record(a, b) <==> equal_fields(a, b),
{
}

proof fn lemma_fd_was_opened(records: Seq<RecordView>, n: int, w: int, s: int)
    requires
        0 <= n <= records.len(),
        replayable(records.take(n)),
        0 <= w < WORKERS,
        0 <= s < FD_SLOTS,
        fds_replayed(records.take(n))[w][s] matches Some(fd) && fd.file is C,
    ensures
        exists|o: int|
            0 <= o < n && opens_tmp(#[trigger] records[o], w as u32) && forall|k: int|
                o < k < n ==> !((#[trigger] records[k]) is Case),
    decreases n,
{
    crate::known::lemma_table_shape(records, n);
    if n > 0 {
        crate::known::lemma_shorter_replayable(records, n);
        crate::known::lemma_table_shape(records, n - 1);
        assert(records.take(n).drop_last() =~= records.take(n - 1));
        let last = records[n - 1];
        assert(records.take(n).last() == last);
        assert(records.take(n)[n - 1] == last);
        let before = fds_replayed(records.take(n - 1));
        assert(last !is Case);
        let from = match last {
            RecordView::Result {
                worker,
                op: Op::Dup { src_slot, dst_slot },
                err: OracleErr::NoErr,
                ..
            } => if worker == w && dst_slot == s {
                src_slot as int
            } else {
                s
            },
            _ => s,
        };
        if opens_tmp(last, w as u32) && last->Result_op->Open_slot == s {
            assert(opens_tmp(records[n - 1], w as u32));
        } else {
            assert(before[w][from] matches Some(fd) && fd.file is C);
            lemma_fd_was_opened(records, n - 1, w, from);
            let o = choose|o: int|
                0 <= o < n - 1 && opens_tmp(#[trigger] records[o], w as u32) && forall|k: int|
                    o < k < n - 1 ==> !((#[trigger] records[k]) is Case);
            assert(opens_tmp(records[o], w as u32));
        }
    }
}

proof fn lemma_fd_was_deleted(records: Seq<RecordView>, n: int, w: int, s: int)
    requires
        0 <= n <= records.len(),
        replayable(records.take(n)),
        0 <= w < WORKERS,
        0 <= s < FD_SLOTS,
        fds_replayed(records.take(n))[w][s] == Some(
            KnownOpenFd { file: FileId::C, deleted_after_open: true },
        ),
    ensures
        exists|o: int, d: int|
            #![trigger records[o], records[d]]
            0 <= o < d < n && opens_tmp(records[o], w as u32) && deletes_tmp(records[d])
                && forall|k: int| o < k < n ==> !((#[trigger] records[k]) is Case),
    decreases n,
{
    crate::known::lemma_table_shape(records, n);
    if n > 0 {
        crate::known::lemma_shorter_replayable(records, n);
        crate::known::lemma_table_shape(records, n - 1);
        assert(records.take(n).drop_last() =~= records.take(n - 1));
        let last = records[n - 1];
        assert(records.take(n).last() == last);
        assert(records.take(n)[n - 1] == last);
        let before = fds_replayed(records.take(n - 1));
        assert(last !is Case);
        if deletes_tmp(last) {
            assert(before[w][s] matches Some(fd) && fd.file is C);
            lemma_fd_was_opened(records, n - 1, w, s);
            let o = choose|o: int|
                0 <= o < n - 1 && opens_tmp(#[trigger] records[o], w as u32) && forall|k: int|
                    o < k < n - 1 ==> !((#[trigger] records[k]) is Case);
            assert(opens_tmp(records[o], w as u32) && deletes_tmp(records[n - 1]));
        } else {
            let from = match last {
                RecordView::Result {
                    worker,
                    op: Op::Dup { src_slot, dst_slot },
                    err: OracleErr::NoErr,
                    ..
                } => if worker == w && dst_slot == s {
                    src_slot as int
                } else {
                    s
                },
                _ => s,
            };
            assert(before[w][from] == Some(
                KnownOpenFd { file: FileId::C, deleted_after_open: true },
            ));
            lemma_fd_was_deleted(records, n - 1, w, from);
            let (o, d) = choose|o: int, d: int|
                #![trigger records[o], records[d]]
                0 <= o < d < n - 1 && opens_tmp(records[o], w as u32) && deletes_tmp(records[d])
                    && forall|k: int| o < k < n - 1 ==> !((#[trigger] records[k]) is Case);
            assert(opens_tmp(records[o], w as u32) && deletes_tmp(records[d]));
        }
    }
}

proof fn lemma_no_difference_at(
    expected: Seq<RecordView>,
    actual: Seq<RecordView>,
    n: nat,
    i: int,
    limit: nat,
)
    requires
        comparable(expected, actual, limit),
        limit > 0,
        n <= expected.len(),
        differences(expected, actual, n).len() == 0,
        0 <= i < n,
    ensures
        equal_fields(expected[i], actual[i]) || lost_after_delete(
            expected,
            i,
            expected[i],
            actual[i],
        ),
    decreases n,
{
    if i < n - 1 {
        lemma_no_difference_at(expected, actual, (n - 1) as nat, i, limit);
    } else {
        law_same_records_agree_in_every_field(expected[i], actual[i]);
        if !same_record(expected[i], actual[i]) {
            assert(known_difference(expected, i, expected[i], actual[i]));
            let w = expected[i]->Result_worker as int;
            let s = crate::known::io_slot(expected[i]->Result_op)->0 as int;
            lemma_fd_was_deleted(expected, i, w, s);
            let (o, d) = choose|o: int, d: int|
                #![trigger expected[o], expected[d]]
                0 <= o < d < i && opens_tmp(expected[o], w as u32) && deletes_tmp(expected[d])
                    && forall|k: int| o < k < i ==> !((#[trigger] expected[k]) is Case);
            assert(opens_tmp(expected[o], expected[i]->Result_worker) && deletes_tmp(expected[d]));
        }
    }
}

/// A comparison that finds nothing has seen every byte: the chain lengths and the numbers of
/// records are equal, and each record of the second report has the fields of its counterpart,
/// what a read returned and what the files held among them. The one exception is a read or
/// write of a file under `/tmp` that was deleted while it was open.
pub proof fn law_passing_records_are_equal(
    expected_len: nat,
    expected: Seq<RecordView>,
    actual_len: nat,
    actual: Seq<RecordView>,
    i: int,
)
    requires
        records_verdict(expected_len, expected, actual_len, actual) is Ok,
        0 <= i < expected.len(),
    ensures
        expected_len == actual_len,
        expected.len() == actual.len(),
        equal_fields(expected[i], actual[i]) || lost_after_delete(
            expected,
            i,
            expected[i],
            actual[i],
        ),
{
    let places = differences(expected, actual, expected.len());
    assert(first_mismatches(expected, actual, MAX_REPORT_MISMATCHES as nat).len() == 0);
    assert(places.len() == 0);
    lemma_no_difference_at(
        expected,
        actual,
        expected.len(),
        i,
        MAX_REPORT_MISMATCHES as nat,
    );
}

/// The same of a sampled case.
pub proof fn law_passing_sample_is_equal(
    case_id: u64,
    expected: Seq<RecordView>,
    actual: Seq<RecordView>,
    i: int,
)
    requires
        sampled_verdict(case_id, expected, actual) is Ok,
        comparable(expected, actual, 1),
        0 <= i < expected.len(),
    ensures
        expected.len() == actual.len(),
        equal_fields(expected[i], actual[i]) || lost_after_delete(
            expected,
            i,
            expected[i],
            actual[i],
        ),
{
    let places = differences(expected, actual, expected.len());
    assert(first_mismatches(expected, actual, 1).len() == 0);
    assert(places.len() == 0);
    lemma_no_difference_at(expected, actual, expected.len(), i, 1);
}

/// Whether the record changes what is open in a slot of a worker.
pub open spec fn refills(record: RecordView, worker: u32, slot: usize) -> bool {
    record matches RecordView::Result { worker: w, op, err: OracleErr::NoErr, .. } && w == worker
        && match op {
        Op::Open { slot: s, .. } => s == slot,
        Op::Close { slot: s } => s == slot,
        Op::Dup { dst_slot, .. } => dst_slot == slot,
        _ => false,
    }
}

/// Whether the difference at `i` is of a slot into which the worker had opened the file under
/// `/tmp` in record `o`, which was deleted in record `d`, with nothing else done to the slot.
pub open spec fn plainly_known(
    records: Seq<RecordView>,
    i: int,
    actual: RecordView,
    o: int,
    d: int,
) -> bool {
    &&& 0 <= o < d < i < records.len()
    &&& records[i] is Result
    &&& records[i]->Result_err is NoErr
    &&& records[i]->Result_worker < WORKERS
    &&& actual is Result
    &&& actual->Result_step == records[i]->Result_step
    &&& actual->Result_worker == records[i]->Result_worker
    &&& actual->Result_op == records[i]->Result_op
    &&& actual->Result_rc == -1
    &&& actual->Result_err is NotFound
    &&& match records[i]->Result_op {
        Op::Read { slot, .. } | Op::Write { slot, .. } => {
            &&& slot < FD_SLOTS
            &&& records[o] matches RecordView::Result {
                worker,
                op: Op::Open { slot: s, file: FileId::C, .. },
                err: OracleErr::NoErr,
                ..
            } && worker == records[i]->Result_worker && s == slot
            &&& forall|k: int|
                o < k < i ==> !refills(#[trigger] records[k], records[i]->Result_worker, slot)
        },
        _ => false,
    }
    &&& deletes_tmp(records[d])
    &&& forall|k: int| o < k < i ==> !((#[trigger] records[k]) is Case)
}

proof fn lemma_table_of_plain(
    records: Seq<RecordView>,
    n: int,
    w: u32,
    s: usize,
    o: int,
    d: int,
)
    requires
        0 <= o < d,
        o < n <= records.len(),
        replayable(records.take(n)),
        w < WORKERS,
        s < FD_SLOTS,
        records[o] matches RecordView::Result {
            worker,
            op: Op::Open { slot, file: FileId::C, .. },
            err: OracleErr::NoErr,
            ..
        } && worker == w && slot == s,
        deletes_tmp(records[d]),
        forall|k: int| o < k < n ==> !refills(#[trigger] records[k], w, s),
        forall|k: int| o < k < n ==> !((#[trigger] records[k]) is Case),
    ensures
        fds_replayed(records.take(n))[w as int][s as int] matches Some(fd) && fd.file is C && (d
            < n ==> fd.deleted_after_open),
    decreases n,
{
    crate::known::lemma_table_shape(records, n);
    crate::known::lemma_shorter_replayable(records, n);
    crate::known::lemma_table_shape(records, n - 1);
    assert(records.take(n).drop_last() =~= records.take(n - 1));
    let last = records[n - 1];
    assert(records.take(n).last() == last);
    assert(records.take(n)[n - 1] == last);
    if n - 1 > o {
        lemma_table_of_plain(records, n - 1, w, s, o, d);
        assert(!refills(records[n - 1], w, s));
        assert(last !is Case);
    }
}

/// The known difference is let pass: a read or write of a file under `/tmp` that was deleted
/// while it was open may find no file in the second run.
pub proof fn law_known_difference_passes(
    records: Seq<RecordView>,
    i: int,
    actual: RecordView,
    o: int,
    d: int,
)
    requires
        plainly_known(records, i, actual, o, d),
        replayable(records.take(i)),
    ensures
        known_difference(records, i, records[i], actual),
{
    let slot = match records[i]->Result_op {
        Op::Read { slot, .. } => slot,
        Op::Write { slot, .. } => slot,
        _ => 0,
    };
    lemma_table_of_plain(records, i, records[i]->Result_worker, slot, o, d);
}

/// Every place at which the records differ counts once, in their order.
pub proof fn law_every_difference_counts(
    expected: Seq<RecordView>,
    actual: Seq<RecordView>,
    n: nat,
)
    ensures
        ({
            let places = differences(expected, actual, n);
            &&& forall|a: int, b: int|
                0 <= a < b < places.len() ==> #[trigger] places[a] < #[trigger] places[b]
            &&& forall|a: int| 0 <= a < places.len() ==> 0 <= #[trigger] places[a] < n
            &&& forall|i: int|
                0 <= i < n ==> (#[trigger] places.contains(i) <==> !equal_fields(
                    expected[i],
                    actual[i],
                ) && !known_difference(expected, i, expected[i], actual[i]))
        }),
    decreases n,
{
    let places = differences(expected, actual, n);
    if n > 0 {
        law_every_difference_counts(expected, actual, (n - 1) as nat);
        let before = differences(expected, actual, (n - 1) as nat);
        law_same_records_agree_in_every_field(expected[n - 1], actual[n - 1]);
        assert forall|i: int| 0 <= i < n implies (#[trigger] places.contains(i) <==> !equal_fields(
            expected[i],
            actual[i],
        ) && !known_difference(expected, i, expected[i], actual[i])) by {
            if differs_at(expected, actual, n - 1) {
                assert(places == before.push(n - 1));
                assert(places[before.len() as int] == n - 1);
                if i < n - 1 {
                    if before.contains(i) {
                        let a = choose|a: int| 0 <= a < before.len() && before[a] == i;
                        assert(places[a] == i);
                    }
                    if places.contains(i) {
                        let a = choose|a: int| 0 <= a < places.len() && places[a] == i;
                        assert(before[a] == i);
                    }
                }
            } else if i == n - 1 {
                if places.contains(i) {
                    let a = choose|a: int| 0 <= a < places.len() && places[a] == i;
                    assert(before[a] == i);
                }
            }
        }
    }
}

/// Wrong results are found: where some record is not the expected one and the difference is
/// not one between a success and a missing file, the comparison fails.
pub proof fn law_wrong_records_are_found(
    chain_len: nat,
    expected: Seq<RecordView>,
    actual: Seq<RecordView>,
    i: int,
)
    requires
        expected.len() == actual.len(),
        0 <= i < expected.len(),
        !equal_fields(expected[i], actual[i]),
        !(expected[i] is Result && actual[i] is Result && expected[i]->Result_err is NoErr
            && actual[i]->Result_err is NotFound),
    ensures
        records_verdict(chain_len, expected, chain_len, actual) is Err,
{
    if records_verdict(chain_len, expected, chain_len, actual) is Ok {
        law_passing_records_are_equal(chain_len, expected, chain_len, actual, i);
    }
}

/// Whether record `i` belongs to a case of `ids`: the last case that starts at or before it is
/// one of them.
pub open spec fn within_case_of(ids: Set<u64>, records: Seq<RecordView>, i: int) -> bool {
    exists|c: int|
        0 <= c <= i && (#[trigger] records[c] matches RecordView::Case { case_id, .. }
            && ids.contains(case_id)) && forall|k: int| c < k <= i ==> !((#[trigger] records[k]) is Case)
}

/// Whether record `i` counts where only the cases `ids` do: it starts one of them, is a result
/// in one, a snapshot of one, or an end.
pub open spec fn counts(ids: Set<u64>, records: Seq<RecordView>, i: int) -> bool {
    match records[i] {
        RecordView::Snapshot { case_id, .. } => ids.contains(case_id),
        RecordView::End { .. } => true,
        _ => within_case_of(ids, records, i),
    }
}

/// The first `n` of the records that count.
pub open spec fn counting(ids: Set<u64>, records: Seq<RecordView>, n: nat) -> Seq<RecordView>
    decreases n,
{
    if n == 0 {
        Seq::empty()
    } else if counts(ids, records, n - 1) {
        counting(ids, records, (n - 1) as nat).push(records[n - 1])
    } else {
        counting(ids, records, (n - 1) as nat)
    }
}

proof fn lemma_in_case(ids: Set<u64>, records: Seq<RecordView>, n: nat)
    requires
        n <= records.len(),
    ensures
        picked(ids, records.take(n as int)).0 == counting(ids, records, n),
        n > 0 ==> picked(ids, records.take(n as int)).1 == within_case_of(ids, records, n - 1),
        n == 0 ==> !picked(ids, records.take(n as int)).1,
    decreases n,
{
    if n > 0 {
        lemma_in_case(ids, records, (n - 1) as nat);
        assert(records.take(n as int).drop_last() =~= records.take(n - 1));
        let last = records[n - 1];
        assert(records.take(n as int).last() == last);
        if last is Case {
            if within_case_of(ids, records, n - 1) {
                let c = choose|c: int|
                    0 <= c <= n - 1 && (#[trigger] records[c] matches RecordView::Case {
                        case_id,
                        ..
                    } && ids.contains(case_id)) && forall|k: int|
                        c < k <= n - 1 ==> !((#[trigger] records[k]) is Case);
                assert(records[n - 1] is Case);
            } else {
                assert(records[n - 1] == last);
            }
        } else {
            if within_case_of(ids, records, n - 1) {
                let c = choose|c: int|
                    0 <= c <= n - 1 && (#[trigger] records[c] matches RecordView::Case {
                        case_id,
                        ..
                    } && ids.contains(case_id)) && forall|k: int|
                        c < k <= n - 1 ==> !((#[trigger] records[k]) is Case);
                assert(records[n - 1] == last);
                assert(records[c] is Case);
                if n >= 2 {
                    assert(within_case_of(ids, records, n - 2));
                }
            } else if n >= 2 && within_case_of(ids, records, n - 2) {
                let c = choose|c: int|
                    0 <= c <= n - 2 && (#[trigger] records[c] matches RecordView::Case {
                        case_id,
                        ..
                    } && ids.contains(case_id)) && forall|k: int|
                        c < k <= n - 2 ==> !((#[trigger] records[k]) is Case);
                assert(records[c] is Case);
                assert(within_case_of(ids, records, n - 1));
            }
        }
    }
}

/// Of a report just those records are compared that belong to the wanted cases, and the ends,
/// all of them and in their order.
pub proof fn law_picked_records_are_those_of_the_cases(ids: Set<u64>, records: Seq<RecordView>)
    ensures
        picked(ids, records).0 == counting(ids, records, records.len()),
{
    lemma_in_case(ids, records, records.len());
    assert(records.take(records.len() as int) =~= records);
}

/// The cases of a report are those that start in it.
pub proof fn law_case_ids_are_those_that_start(records: Seq<RecordView>, id: u64)
    ensures
        case_ids(records).contains(id) <==> exists|i: int|
            0 <= i < records.len() && (#[trigger] records[i] matches RecordView::Case {
                case_id,
                ..
            } && case_id == id),
    decreases records.len(),
{
    if records.len() > 0 {
        let less = records.drop_last();
        law_case_ids_are_those_that_start(less, id);
        let n = records.len() - 1;
        assert(records[n] == records.last());
        if case_ids(less).contains(id) {
            let i = choose|i: int|
                0 <= i < less.len() && (#[trigger] less[i] matches RecordView::Case { case_id, .. }
                    && case_id == id);
            assert(records[i] == less[i]);
        }
        if exists|i: int|
            0 <= i < records.len() && (#[trigger] records[i] matches RecordView::Case {
                case_id,
                ..
            } && case_id == id) {
            let i = choose|i: int|
                0 <= i < records.len() && (#[trigger] records[i] matches RecordView::Case {
                    case_id,
                    ..
                } && case_id == id);
            if i < n {
                assert(less[i] == records[i]);
            }
        }
    }
}

/// The number of cases that a report gives is that of its last end.
pub proof fn law_total_is_that_of_the_last_end(records: Seq<RecordView>, i: int)
    requires
        0 <= i < records.len(),
        records[i] is End,
        forall|k: int| i < k < records.len() ==> !((#[trigger] records[k]) is End),
    ensures
        total_cases_of(records) == Some(records[i]->End_cases as usize),
    decreases records.len(),
{
    if i < records.len() - 1 {
        let less = records.drop_last();
        assert(records[records.len() - 1] == records.last());
        assert(less[i] == records[i]);
        assert forall|k: int| i < k < less.len() implies !((#[trigger] less[k]) is End) by {
            assert(less[k] == records[k]);
        }
        law_total_is_that_of_the_last_end(less, i);
    }
}

/// The case that a record lies in is the last that starts at or before it.
pub proof fn law_records_lie_in_the_last_case(records: Seq<RecordView>, c: int)
    requires
        0 <= c < records.len(),
        records[c] is Case,
        forall|k: int| c < k < records.len() ==> !((#[trigger] records[k]) is Case),
    ensures
        last_case(records) == Some(records[c]->Case_case_id),
    decreases records.len(),
{
    if c < records.len() - 1 {
        let less = records.drop_last();
        assert(records[records.len() - 1] == records.last());
        assert(less[c] == records[c]);
        assert forall|k: int| c < k < less.len() implies !((#[trigger] less[k]) is Case) by {
            assert(less[k] == records[k]);
        }
        law_records_lie_in_the_last_case(less, c);
    }
}

/// Two files of reports pass only where both can be read, their chains are of one length, and
/// each record of the second has the fields of its counterpart among those of the first that
/// belong to the cases of the second, but for the known difference.
pub proof fn law_passing_reports_are_equal(
    expected_path: Seq<char>,
    expected: Seq<u8>,
    actual_path: Seq<char>,
    actual: Seq<u8>,
    i: int,
)
    requires
        reports_verdict(expected_path, expected, actual_path, actual) is Ok,
    ensures
        report_of(expected_path, expected) is Ok,
        report_of(actual_path, actual) is Ok,
        ({
            let (expected_len, _, all, _) = report_of(expected_path, expected)->Ok_0;
            let (actual_len, _, found, _) = report_of(actual_path, actual)->Ok_0;
            let ids = case_ids(found);
            let wanted = counting(ids, all, all.len());
            &&& expected_len == actual_len
            &&& wanted.len() == found.len()
            &&& 0 <= i < found.len() ==> equal_fields(wanted[i], found[i]) || lost_after_delete(
                wanted,
                i,
                wanted[i],
                found[i],
            )
        }),
{
    let (expected_len, _, all, _) = report_of(expected_path, expected)->Ok_0;
    let (actual_len, _, found, _) = report_of(actual_path, actual)->Ok_0;
    let ids = case_ids(found);
    law_picked_records_are_those_of_the_cases(ids, all);
    let wanted = picked(ids, all).0;
    if 0 <= i < wanted.len() {
        law_passing_records_are_equal(expected_len as nat, wanted, actual_len as nat, found, i);
    }
}

/// Mismatches are counted and shown: the verdict begins with how many there are, up to twenty,
/// and each that is shown is one of the places that differ, in their order.
pub proof fn law_mismatches_are_shown(
    chain_len: nat,
    expected: Seq<RecordView>,
    actual: Seq<RecordView>,
    k: int,
)
    requires
        expected.len() == actual.len(),
        comparable(expected, actual, MAX_REPORT_MISMATCHES as nat),
        differences(expected, actual, expected.len()).len() > 0,
    ensures
        ({
            let places = differences(expected, actual, expected.len());
            let shown = first_mismatches(expected, actual, 20);
            &&& shown.len() == if places.len() < 20 {
                places.len()
            } else {
                20
            }
            &&& 0 <= k < shown.len() ==> shown[k] == mismatch_text(
                (places[k] + 1) as nat,
                places[k],
                expected,
                expected[places[k]],
                actual[places[k]],
            )
            &&& records_verdict(chain_len, expected, chain_len, actual) matches Err(text)
                && starts_in(text, "oracle found "@ + dec(shown.len()) + " mismatch(es)"@)
                && ends_in(text, "\n\n"@ + joined(shown, "\n\n"@))
        }),
{
    reveal_strlit("oracle found ");
    reveal_strlit(" mismatch(es)");
    reveal_strlit(" mismatch(es), showing up to ");
    let shown = first_mismatches(expected, actual, 20);
    let text = records_verdict(chain_len, expected, chain_len, actual)->Err_0;
    let front = "oracle found "@ + dec(shown.len()) + " mismatch(es)"@;
    let tail = "\n\n"@ + joined(shown, "\n\n"@);
    assert(text.take(front.len() as int) =~= front);
    assert(text.skip(text.len() - tail.len()) =~= tail);
}

/// A mismatch says where it is, what was expected there and what came.
pub proof fn law_mismatch_says_what_differs(
    record_no: nat,
    record_idx: int,
    records: Seq<RecordView>,
    expected: RecordView,
    actual: RecordView,
)
    ensures
        starts_in(
            mismatch_text(record_no, record_idx, records, expected, actual),
            "mismatch at record "@ + dec(record_no) + "\nexpected: "@ + record_text(expected)
                + "\nactual:   "@ + record_text(actual),
        ),
{
    reveal(mismatch_text);
    let text = mismatch_text(record_no, record_idx, records, expected, actual);
    let front = "mismatch at record "@ + dec(record_no) + "\nexpected: "@ + record_text(expected)
        + "\nactual:   "@ + record_text(actual);
    assert(text.take(front.len() as int) =~= front);
}

/// A mismatch belongs to the case that its records name, and else to the last one that starts
/// at or before it.
pub proof fn law_mismatch_belongs_to_its_case(
    records: Seq<RecordView>,
    i: int,
    actual: RecordView,
    c: int,
)
    requires
        0 <= c <= i < records.len(),
        records[c] is Case,
        forall|k: int| c < k <= i ==> !((#[trigger] records[k]) is Case),
    ensures
        records[i] is Case || records[i] is Result && !(actual is Case) && !(actual is Snapshot)
            ==> mismatch_case(i, records, records[i], actual) == Some(records[c]->Case_case_id),
        records[i] is Snapshot ==> mismatch_case(i, records, records[i], actual) == Some(
            records[i]->Snapshot_case_id,
        ),
        records[i] is Result && actual is Snapshot ==> mismatch_case(i, records, records[i], actual)
            == Some(actual->Snapshot_case_id),
{
    let upto = records.take(i + 1);
    assert(upto[c] == records[c]);
    assert forall|k: int| c < k < upto.len() implies !((#[trigger] upto[k]) is Case) by {
        assert(upto[k] == records[k]);
    }
    law_records_lie_in_the_last_case(upto, c);
    if records[i] is Case && c < i {
        assert(!(records[i] is Case));
    }
}

/// The lines of the results among the records, in their order.
pub open spec fn lines_of_results(records: Seq<RecordView>) -> Seq<Seq<char>>
    decreases records.len(),
{
    if records.len() == 0 {
        Seq::empty()
    } else if records[0] is Result {
        seq![result_line(records[0])] + lines_of_results(records.drop_first())
    } else {
        lines_of_results(records.drop_first())
    }
}

proof fn lemma_lines_of_case(inside: Seq<RecordView>, after: Seq<RecordView>, id: u64)
    requires
        forall|i: int| 0 <= i < inside.len() ==> !((#[trigger] inside[i]) is Case),
        after.len() > 0 ==> after[0] is Case && after[0]->Case_case_id != id,
    ensures
        program_lines(inside + after, id, true) == lines_of_results(inside),
    decreases inside.len(),
{
    let all = inside + after;
    if inside.len() == 0 {
        assert(all =~= after);
    } else {
        let less = inside.drop_first();
        assert forall|i: int| 0 <= i < less.len() implies !((#[trigger] less[i]) is Case) by {
            assert(less[i] == inside[i + 1]);
        }
        lemma_lines_of_case(less, after, id);
        assert(all.drop_first() =~= less + after);
        assert(all[0] == inside[0]);
    }
}

/// The program of a case is its own: its mask and every result in it, in their order, and
/// nothing of the cases before and behind.
pub proof fn law_program_is_that_of_the_case(
    before: Seq<RecordView>,
    id: u64,
    mask: u64,
    inside: Seq<RecordView>,
    after: Seq<RecordView>,
)
    requires
        forall|i: int|
            0 <= i < before.len() ==> ((#[trigger] before[i]) is Case ==> before[i]->Case_case_id
                != id),
        forall|i: int| 0 <= i < inside.len() ==> !((#[trigger] inside[i]) is Case),
        after.len() > 0 ==> after[0] is Case && after[0]->Case_case_id != id,
    ensures
        program_lines(
            before + seq![RecordView::Case { case_id: id, mask }] + inside + after,
            id,
            false,
        ) == seq!["  mask="@ + dec(mask as nat)] + lines_of_results(inside),
    decreases before.len(),
{
    let case = RecordView::Case { case_id: id, mask };
    let all = before + seq![case] + inside + after;
    if before.len() == 0 {
        assert(all[0] == case);
        assert(all.drop_first() =~= inside + after);
        lemma_lines_of_case(inside, after, id);
    } else {
        let less = before.drop_first();
        assert forall|i: int| 0 <= i < less.len() && (#[trigger] less[i]) is Case implies less[
            i
        ]->Case_case_id != id by {
            assert(less[i] == before[i + 1]);
        }
        law_program_is_that_of_the_case(less, id, mask, inside, after);
        assert(all.drop_first() =~= less + seq![case] + inside + after);
        assert(all[0] == before[0]);
    }
}

/// Cases are named by their numbers, and no two alike.
pub proof fn law_cases_have_own_names(a: nat, b: nat)
    requires
        case_name_text(a) == case_name_text(b),
    ensures
        a == b,
{
    reveal_strlit("case-");
    let x = crate::text::pad_left(dec(a), 6, '0');
    let y = crate::text::pad_left(dec(b), 6, '0');
    assert(x =~= case_name_text(a).skip(5));
    assert(y =~= case_name_text(b).skip(5));
    crate::text_laws::law_digits_make_the_number(a);
    crate::text_laws::law_digits_make_the_number(b);
    crate::plan_laws::lemma_padded_value(dec(a), 6);
    crate::plan_laws::lemma_padded_value(dec(b), 6);
}

/// How many of the cases of a report are wanted: one for each that starts and is.
pub proof fn law_wanted_cases_are_counted(ids: Set<u64>, records: Seq<RecordView>)
    ensures
        cases_found(ids, records) == records.filter(
            |r: RecordView| r is Case && ids.contains(r->Case_case_id),
        ).len(),
    decreases records.len(),
{
    reveal(Seq::filter);
    if records.len() > 0 {
        law_wanted_cases_are_counted(ids, records.drop_last());
    }
}

/// The line of a result says the step, the worker, the operation, what it returned and with
/// which error.
pub proof fn law_result_lines_say_the_result(record: RecordView)
    requires
        record is Result,
    ensures
        starts_in(
            result_line(record),
            "    -> step "@ + dec(record->Result_step as nat) + " T"@ + dec(
                (record->Result_worker + 1) as nat,
            ) + " "@ + record->Result_op.text() + " rc="@ + crate::text::dec_int(
                record->Result_rc as int,
            ) + " err="@ + record->Result_err.name_text(),
        ),
        record->Result_data.len() > 0 ==> ends_in(
            result_line(record),
            " data_len="@ + dec(record->Result_data.len()),
        ),
{
    let line = result_line(record);
    let front = "    -> step "@ + dec(record->Result_step as nat) + " T"@ + dec(
        (record->Result_worker + 1) as nat,
    ) + " "@ + record->Result_op.text() + " rc="@ + crate::text::dec_int(record->Result_rc as int)
        + " err="@ + record->Result_err.name_text();
    let tail = " data_len="@ + dec(record->Result_data.len());
    assert(line.take(front.len() as int) =~= front);
    if record->Result_data.len() > 0 {
        assert(line.skip(line.len() - tail.len()) =~= tail);
    }
}

} // verus!
