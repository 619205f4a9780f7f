//! A known difference between hosts: reading or writing through a descriptor of the file
//! under `/tmp` after that file was deleted.

use vstd::prelude::*;

use crate::ops::{FileId, Op, FD_SLOTS, WORKERS};
use crate::report::{record_views, ComparableRecord, RecordView};
use crate::result::OracleErr;

verus! {

/// What is known of an open descriptor.
#[derive(Clone, Copy, Debug, PartialEq, Eq, Structural)]
pub struct KnownOpenFd {
    pub file: FileId,
    pub deleted_after_open: bool,
}

/// By worker and slot, the descriptors that are open.
pub type FdTable = Seq<Seq<Option<KnownOpenFd>>>;

pub open spec fn no_fds() -> FdTable {
    seq![seq![None, None], seq![None, None]]
}

/// A descriptor once the file under `/tmp` was deleted.
pub open spec fn marked(open: Option<KnownOpenFd>) -> Option<KnownOpenFd> {
    match open {
        Some(fd) => if fd.file is C {
            Some(KnownOpenFd { file: fd.file, deleted_after_open: true })
        } else {
            open
        },
        None => None,
    }
}

pub open spec fn all_marked(table: FdTable) -> FdTable {
    table.map_values(|row: Seq<Option<KnownOpenFd>>| row.map_values(|o: Option<KnownOpenFd>| marked(o)))
}

/// The open descriptors once `worker` has run `op` with the outcome `err`.
pub open spec fn fds_after(table: FdTable, worker: int, op: Op, err: OracleErr) -> FdTable {
    if err !is NoErr {
        table
    } else {
        match op {
            Op::Open { slot, file, .. } => table.update(
                worker,
                table[worker].update(
                    slot as int,
                    Some(KnownOpenFd { file, deleted_after_open: false }),
                ),
            ),
            Op::Close { slot } => table.update(worker, table[worker].update(slot as int, None)),
            Op::Dup { src_slot, dst_slot } => table.update(
                worker,
                table[worker].update(dst_slot as int, table[worker][src_slot as int]),
            ),
            Op::Delete { file } => if file is C {
                all_marked(table)
            } else {
                table
            },
            _ => table,
        }
    }
}

/// Whether the descriptors that the outcome changes exist.
pub open spec fn fds_exist(worker: int, op: Op, err: OracleErr) -> bool {
    err is NoErr ==> match op {
        Op::Open { slot, .. } => 0 <= worker < WORKERS && slot < FD_SLOTS,
        Op::Close { slot } => 0 <= worker < WORKERS && slot < FD_SLOTS,
        Op::Dup { src_slot, dst_slot } => 0 <= worker < WORKERS && src_slot < FD_SLOTS && dst_slot
            < FD_SLOTS,
        _ => true,
    }
}

/// The descriptors that are open after `records`; a case starts with none.
pub open spec fn fds_replayed(records: Seq<RecordView>) -> FdTable
    decreases records.len(),
{
    if records.len() == 0 {
        no_fds()
    } else {
        let before = fds_replayed(records.drop_last());
        match records.last() {
            RecordView::Case { .. } => no_fds(),
            RecordView::Result { worker, op, err, .. } => fds_after(before, worker as int, op, err),
            _ => before,
        }
    }
}

/// Whether all descriptors that the records change exist.
pub open spec fn replayable(records: Seq<RecordView>) -> bool {
    forall|i: int|
        0 <= i < records.len() ==> (#[trigger] records[i] matches RecordView::Result {
            worker,
            op,
            err,
            ..
        } ==> fds_exist(worker as int, op, err))
}

/// The slot through which an operation reads or writes.
pub open spec fn io_slot(op: Op) -> Option<usize> {
    match op {
        Op::Write { slot, .. } => Some(slot),
        Op::Read { slot, .. } => Some(slot),
        _ => None,
    }
}

/// Whether the two records are a read or write of the same step that succeeded in the
/// first and found no file in the second.
pub open spec fn lost_file_shape(expected: RecordView, actual: RecordView) -> bool {
    match (expected, actual) {
        (
            RecordView::Result { step, worker, op, err: OracleErr::NoErr, .. },
            RecordView::Result {
                step: step2,
                worker: worker2,
                op: op2,
                rc: rc2,
                err: OracleErr::NotFound,
                ..
            },
        ) => step == step2 && worker == worker2 && op == op2 && rc2 == -1 && io_slot(op) is Some,
        _ => false,
    }
}

/// Whether the descriptor of the record `expected` was one of the deleted file.
pub open spec fn on_deleted_file(before: Seq<RecordView>, expected: RecordView) -> bool {
    match expected {
        RecordView::Result { worker, op, .. } => fds_replayed(
            before,
        )[worker as int][io_slot(op)->0 as int] == Some(
            KnownOpenFd { file: FileId::C, deleted_after_open: true },
        ),
        _ => false,
    }
}

/// Whether the difference between the two records at `idx` is the known one.
pub open spec fn known_difference(
    records: Seq<RecordView>,
    idx: int,
    expected: RecordView,
    actual: RecordView,
) -> bool {
    lost_file_shape(expected, actual) && on_deleted_file(records.take(idx), expected)
}

/// Whether it can be told if the difference is the known one: the records before `idx`
/// and the one compared name no descriptor that does not exist.
pub open spec fn decidable(
    records: Seq<RecordView>,
    idx: int,
    expected: RecordView,
    actual: RecordView,
) -> bool {
    lost_file_shape(expected, actual) ==> {
        &&& replayable(records.take(idx))
        &&& expected matches RecordView::Result { worker, op, .. } && worker < WORKERS && io_slot(
            op,
        )->0 < FD_SLOTS
    }
}

/// A table of descriptors by its rows.
pub open spec fn fd_rows(slots: [[Option<KnownOpenFd>; FD_SLOTS]; WORKERS]) -> FdTable {
    Seq::new(slots@.len(), |w: int| slots@[w]@)
}

fn marked_fd(open: Option<KnownOpenFd>) -> (r: Option<KnownOpenFd>)
    ensures
        r == marked(open),
{
    match open {
        Some(fd) => if fd.file == FileId::C {
            Some(KnownOpenFd { file: fd.file, deleted_after_open: true })
        } else {
            open
        },
        None => None,
    }
}

fn set_fd(
    slots: &mut [[Option<KnownOpenFd>; FD_SLOTS]; WORKERS],
    worker: usize,
    slot: usize,
    fd: Option<KnownOpenFd>,
)
    requires
        worker < WORKERS,
        slot < FD_SLOTS,
    ensures
        fd_rows(*final(slots)) == fd_rows(*old(slots)).update(
            worker as int,
            fd_rows(*old(slots))[worker as int].update(slot as int, fd),
        ),
{
    let mut row = slots[worker];
    row[slot] = fd;
    slots[worker] = row;
    assert(fd_rows(*slots) =~= fd_rows(*old(slots)).update(
        worker as int,
        fd_rows(*old(slots))[worker as int].update(slot as int, fd),
    ));
}

pub fn update_known_open_fds(
    slots: &mut [[Option<KnownOpenFd>; FD_SLOTS]; WORKERS],
    worker: usize,
    op: Op,
    err: OracleErr,
)
    requires
        fds_exist(worker as int, op, err),
    ensures
        fd_rows(*final(slots)) == fds_after(fd_rows(*old(slots)), worker as int, op, err),
{
    match op {
        Op::Open { slot, file, .. } => {
            if err == OracleErr::NoErr {
                set_fd(slots, worker, slot, Some(KnownOpenFd { file, deleted_after_open: false }));
            }
        },
        Op::Close { slot } => {
            if err == OracleErr::NoErr {
                set_fd(slots, worker, slot, None);
            }
        },
        Op::Write { .. } => {},
        Op::Read { .. } => {},
        Op::Seek { .. } => {},
        Op::Fstat { .. } => {},
        Op::Stat { .. } => {},
        Op::ReadDir => {},
        Op::WriteStderr => {},
        Op::Dup { src_slot, dst_slot } => {
            if err == OracleErr::NoErr {
                let fd = slots[worker][src_slot];
                set_fd(slots, worker, dst_slot, fd);
            }
        },
        Op::Delete { file } => {
            if file == FileId::C && err == OracleErr::NoErr {
                let rows: [[Option<KnownOpenFd>; FD_SLOTS]; WORKERS] = [
                    [marked_fd(slots[0][0]), marked_fd(slots[0][1])],
                    [marked_fd(slots[1][0]), marked_fd(slots[1][1])],
                ];
                proof {
                    let before = fd_rows(*old(slots));
                    let goal = all_marked(before);
                    assert(before[0] == old(slots)@[0]@);
                    assert(before[1] == old(slots)@[1]@);
                    assert(fd_rows(rows)[0] =~= goal[0]);
                    assert(fd_rows(rows)[1] =~= goal[1]);
                    assert(fd_rows(rows) =~= goal);
                }
                *slots = rows;
            }
        },
    }
}

pub fn ignore_known_error(
    expected_records: &[ComparableRecord],
    record_idx: usize,
    expected: &ComparableRecord,
    actual: &ComparableRecord,
) -> (r: bool)
    requires
        record_idx <= expected_records@.len(),
        decidable(record_views(expected_records@), record_idx as int, expected@, actual@),
    ensures
        r == known_difference(
            record_views(expected_records@),
            record_idx as int,
            expected@,
            actual@,
        ),
{
    let (expected_worker, slot): (u32, usize) = match (expected, actual) {
        (
            ComparableRecord::Result {
                step: expected_step,
                worker: expected_worker,
                op: expected_op,
                err: OracleErr::NoErr,
                ..
            },
            ComparableRecord::Result {
                step: actual_step,
                worker: actual_worker,
                op: actual_op,
                rc: actual_rc,
                err: OracleErr::NotFound,
                ..
            },
        ) => {
            if *actual_rc != -1 || *expected_step != *actual_step || *expected_worker
                != *actual_worker || *expected_op != *actual_op {
                return false;
            }
            match *expected_op {
                Op::Write { slot, .. } => (*expected_worker, slot),
                Op::Read { slot, .. } => (*expected_worker, slot),
                _ => {
                    return false;
                },
            }
        },
        _ => {
            return false;
        },
    };
    let mut slots: [[Option<KnownOpenFd>; FD_SLOTS]; WORKERS] = [[None, None], [None, None]];
    let ghost views = record_views(expected_records@);
    proof {
        assert(fd_rows(slots)[0] =~= no_fds()[0]);
        assert(fd_rows(slots)[1] =~= no_fds()[1]);
        assert(fd_rows(slots) =~= no_fds());
    }
    let mut i: usize = 0;
    while i < record_idx
        invariant
            i <= record_idx <= expected_records@.len(),
            views == record_views(expected_records@),
            replayable(views.take(record_idx as int)),
            fd_rows(slots) == fds_replayed(views.take(i as int)),
        decreases record_idx - i,
    {
        proof {
            assert(views.take(i as int + 1).drop_last() =~= views.take(i as int));
            assert(views.take(record_idx as int)[i as int] == expected_records@[i as int]@);
        }
        match &expected_records[i] {
            ComparableRecord::Case { .. } => {
                slots = [[None, None], [None, None]];
                proof {
                    assert(fd_rows(slots)[0] =~= no_fds()[0]);
                    assert(fd_rows(slots)[1] =~= no_fds()[1]);
                    assert(fd_rows(slots) =~= no_fds());
                }
            },
            ComparableRecord::Result { worker, op, err, .. } => {
                update_known_open_fds(&mut slots, *worker as usize, *op, *err);
            },
            _ => {},
        }
        i = i + 1;
    }
    match slots[expected_worker as usize][slot] {
        Some(fd) => fd.file == FileId::C && fd.deleted_after_open,
        None => false,
    }
}

/// Whether it can be told if a difference at `record_idx` is the known one.
pub fn can_decide(
    expected_records: &[ComparableRecord],
    record_idx: usize,
    expected: &ComparableRecord,
    actual: &ComparableRecord,
) -> (r: bool)
    requires
        record_idx <= expected_records@.len(),
    ensures
        r == decidable(record_views(expected_records@), record_idx as int, expected@, actual@),
{
    let (expected_worker, slot): (u32, usize) = match (expected, actual) {
        (
            ComparableRecord::Result {
                step: expected_step,
                worker: expected_worker,
                op: expected_op,
                err: OracleErr::NoErr,
                ..
            },
            ComparableRecord::Result {
                step: actual_step,
                worker: actual_worker,
                op: actual_op,
                rc: actual_rc,
                err: OracleErr::NotFound,
                ..
            },
        ) => {
            if *actual_rc != -1 || *expected_step != *actual_step || *expected_worker
                != *actual_worker || *expected_op != *actual_op {
                return true;
            }
            match *expected_op {
                Op::Write { slot, .. } => (*expected_worker, slot),
                Op::Read { slot, .. } => (*expected_worker, slot),
                _ => {
                    return true;
                },
            }
        },
        _ => {
            return true;
        },
    };
    if expected_worker as usize >= WORKERS || slot >= FD_SLOTS {
        return false;
    }
    let ghost views = record_views(expected_records@);
    let mut i: usize = 0;
    while i < record_idx
        invariant
            i <= record_idx <= expected_records@.len(),
            views == record_views(expected_records@),
            replayable(views.take(i as int)),
            lost_file_shape(expected@, actual@),
        decreases record_idx - i,
    {
        let good = match &expected_records[i] {
            ComparableRecord::Result { worker, op, err, .. } => descriptors_exist(
                *worker as usize,
                *op,
                *err,
            ),
            _ => true,
        };
        if !good {
            assert(views.take(record_idx as int)[i as int] == expected_records@[i as int]@);
            return false;
        }
        i = i + 1;
        assert forall|j: int| 0 <= j < i implies (#[trigger] views.take(
            i as int,
        )[j] matches RecordView::Result { worker, op, err, .. } ==> fds_exist(
            worker as int,
            op,
            err,
        )) by {
            if j < i - 1 {
                assert(views.take(i as int - 1)[j] == views.take(i as int)[j]);
            } else {
                assert(views.take(i as int)[j] == expected_records@[j]@);
            }
        }
    }
    true
}

fn descriptors_exist(worker: usize, op: Op, err: OracleErr) -> (r: bool)
    ensures
        r == fds_exist(worker as int, op, err),
{
    if err != OracleErr::NoErr {
        return true;
    }
    match op {
        Op::Open { slot, .. } => worker < WORKERS && slot < FD_SLOTS,
        Op::Close { slot } => worker < WORKERS && slot < FD_SLOTS,
        Op::Dup { src_slot, dst_slot } => worker < WORKERS && src_slot < FD_SLOTS && dst_slot
            < FD_SLOTS,
        _ => true,
    }
}

/// A difference is the known one only where the expected run opened the file under `/tmp`
/// and deleted it, in the same case, before the record compared.
pub proof fn law_known_difference_needs_delete(
    records: Seq<RecordView>,
    idx: int,
    expected: RecordView,
    actual: RecordView,
)
    requires
        0 <= idx <= records.len(),
        decidable(records, idx, expected, actual),
        known_difference(records, idx, expected, actual),
    ensures
        exists|j: int|
            0 <= j < idx && (#[trigger] records[j] matches RecordView::Result {
                op: Op::Delete { file: FileId::C },
                err: OracleErr::NoErr,
                ..
            }) && forall|k: int| j < k < idx ==> !((#[trigger] records[k]) is Case),
{
    let w = expected->Result_worker as int;
    let s = io_slot(expected->Result_op)->0 as int;
    lemma_marked_needs_delete(records, idx, w, s);
}

proof fn lemma_marked_needs_delete(records: Seq<RecordView>, n: int, w: int, s: int)
    requires
        0 <= n <= records.len(),
        replayable(records.take(n)),
        0 <= w < WORKERS,
        0 <= s < FD_SLOTS,
        fds_replayed(records.take(n))[w][s] matches Some(fd) && fd.deleted_after_open,
    ensures
        exists|j: int|
            0 <= j < n && (#[trigger] records[j] matches RecordView::Result {
                op: Op::Delete { file: FileId::C },
                err: OracleErr::NoErr,
                ..
            }) && forall|k: int| j < k < n ==> !((#[trigger] records[k]) is Case),
    decreases n,
{
    lemma_table_shape(records, n);
    if n > 0 {
        lemma_shorter_replayable(records, n);
        lemma_table_shape(records, n - 1);
        assert(records.take(n).drop_last() =~= records.take(n - 1));
        let last = records[n - 1];
        assert(records.take(n).last() == last);
        assert(records.take(n)[n - 1] == last);
        let before = fds_replayed(records.take(n - 1));
        if last matches RecordView::Result { op: Op::Delete { file: FileId::C }, err: OracleErr::NoErr, .. } {
            assert(records[n - 1] == last);
        } else {
            assert(last !is Case);
            let from = match last {
                RecordView::Result { worker, op: Op::Dup { src_slot, dst_slot }, err: OracleErr::NoErr, .. } => if worker == w
                    && dst_slot == s {
                    src_slot as int
                } else {
                    s
                },
                _ => s,
            };
            assert(before[w][from] matches Some(fd) && fd.deleted_after_open);
            lemma_marked_needs_delete(records, n - 1, w, from);
            let j = choose|j: int|
                0 <= j < n - 1 && (#[trigger] records[j] matches RecordView::Result {
                    op: Op::Delete { file: FileId::C },
                    err: OracleErr::NoErr,
                    ..
                }) && forall|k: int| j < k < n - 1 ==> !((#[trigger] records[k]) is Case);
            assert(records[j] is Result);
        }
    }
}

pub(crate) proof fn lemma_shorter_replayable(records: Seq<RecordView>, n: int)
    requires
        0 < n <= records.len(),
        replayable(records.take(n)),
    ensures
        replayable(records.take(n - 1)),
{
    assert forall|i: int| 0 <= i < n - 1 implies (#[trigger] records.take(
        n - 1,
    )[i] matches RecordView::Result { worker, op, err, .. } ==> fds_exist(worker as int, op, err)) by {
        assert(records.take(n)[i] == records.take(n - 1)[i]);
    }
}

pub(crate) proof fn lemma_table_shape(records: Seq<RecordView>, n: int)
    requires
        0 <= n <= records.len(),
        replayable(records.take(n)),
    ensures
        fds_replayed(records.take(n)).len() == WORKERS,
        forall|w: int| 0 <= w < WORKERS ==> (#[trigger] fds_replayed(records.take(n))[w]).len() == FD_SLOTS,
    decreases n,
{
    if n > 0 {
        lemma_shorter_replayable(records, n);
        lemma_table_shape(records, n - 1);
        assert(records.take(n).drop_last() =~= records.take(n - 1));
        assert(records.take(n)[n - 1] == records[n - 1]);
    }
}

} // verus!
