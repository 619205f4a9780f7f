use std::collections::{BTreeSet, HashMap};

use fsx_wasix::errors::{errcode, FailureKind, IoFailure};
use fsx_wasix::fixtures::{fixture_path, theory_trial_1_fixture_bytes};
use fsx_wasix::known::ignore_known_error;
use fsx_wasix::normal::{canonical_slot, normalize_scheduled_case, scheduled_case_is_enabled};
use fsx_wasix::ops::{
    FileId, Op, OpSpec, OpenMode, ReadSize, SeekTarget, WritePayload, FD_SLOTS, FILES,
    FIXTURE_FILES, SNAPSHOT_FILES, WORKERS,
};
use fsx_wasix::report::ComparableRecord;
use fsx_wasix::result::OracleErr;
use fsx_wasix::schedule::{chain_is_enabled, concrete_ops, ScheduledStep, Scheduler};
use fsx_wasix::selection::{
    ensure_selected_fixtures_available, sample_case_ids, selected_run_fixture_id,
    OracleCaseSelection, OracleSelection, OracleShard, THEORY_TRIAL_1_FIXTURE_COUNT,
};

const A: FileId = FileId::A;
const B: FileId = FileId::B;
const C: FileId = FileId::C;
const APPEND: OpenMode = OpenMode::AppendCreate;
const CREATE: OpenMode = OpenMode::ReadWriteCreate;
const NO_ERR: OracleErr = OracleErr::NoErr;
const NOT_FOUND: OracleErr = OracleErr::NotFound;
const BAD_FD: OracleErr = OracleErr::BadFd;
const READ_32: ReadSize = ReadSize::Bytes32;
const READ_4K: ReadSize = ReadSize::Bytes4K;
const WRITE_32: WritePayload = WritePayload::Bytes32;
const WRITE_4K: WritePayload = WritePayload::Bytes4K;
const WRITE_32K: WritePayload = WritePayload::Bytes32K;

fn failure(e: &std::io::Error) -> IoFailure {
    let kind = match e.kind() {
        std::io::ErrorKind::NotFound => FailureKind::NotFound,
        _ => FailureKind::Other,
    };
    IoFailure {
        kind,
        message: e.to_string(),
        errno: e.raw_os_error(),
    }
}

#[derive(Clone, Copy, Debug, Default, PartialEq, Eq, Hash)]
struct CountState {
    opened: [[bool; FD_SLOTS]; WORKERS],
    slot_maps: [[Option<usize>; FD_SLOTS]; WORKERS],
    file_map: [Option<usize>; 2],
    has_mutation: bool,
}

fn generated_scheduled_case_count(len: usize) -> usize {
    let ops = concrete_ops();
    count_scheduled_suffix(0, len, &ops, CountState::default(), &mut HashMap::new())
}

fn count_scheduled_suffix(
    pos: usize,
    len: usize,
    ops: &[Op],
    state: CountState,
    memo: &mut HashMap<(usize, CountState), usize>,
) -> usize {
    if pos == len {
        return usize::from(state.has_mutation);
    }
    if let Some(count) = memo.get(&(pos, state)) {
        return *count;
    }

    let workers: &[usize] = if pos == 0 { &[0] } else { &[0, 1] };
    let mut count = 0usize;
    for worker in workers {
        for op in ops {
            if let Some(next_state) = advance_count_state(state, *worker, *op) {
                count += count_scheduled_suffix(pos + 1, len, ops, next_state, memo);
            }
        }
    }
    memo.insert((pos, state), count);
    count
}

fn advance_count_state(mut state: CountState, worker: usize, op: Op) -> Option<CountState> {
    if op.requires_fd() {
        if let Some(slot) = op.slot() {
            if !state.opened[worker][slot] {
                return None;
            }
        }
    }

    match op {
        Op::Dup { src_slot, dst_slot } => {
            let canonical_src_slot = canonical_slot(&mut state.slot_maps[worker], src_slot);
            let canonical_dst_slot = canonical_slot(&mut state.slot_maps[worker], dst_slot);
            if canonical_src_slot != src_slot || canonical_dst_slot != dst_slot {
                return None;
            }
        }
        _ => {
            if let Some(slot) = op.slot() {
                let canonical_slot = canonical_slot(&mut state.slot_maps[worker], slot);
                if canonical_slot != slot {
                    return None;
                }
            }
        }
    }

    if let Some(file) = op.file() {
        if let Some(file_index) = file.canonicalizable_index() {
            let canonical_file_index = match state.file_map[file_index] {
                Some(canonical_file_index) => canonical_file_index,
                None => {
                    let canonical_file_index = state.file_map.iter().flatten().count();
                    state.file_map[file_index] = Some(canonical_file_index);
                    canonical_file_index
                }
            };
            if canonical_file_index != file_index {
                return None;
            }
        }
    }

    match op {
        Op::Open { slot, .. } => {
            state.opened[worker][slot] = true;
        }
        Op::Close { .. } => {}
        Op::Write { .. } => {}
        Op::Read { .. } => {}
        Op::Seek { .. } => {}
        Op::Fstat { .. } => {}
        Op::Stat { .. } => {}
        Op::ReadDir => {}
        Op::WriteStderr => {}
        Op::Dup { dst_slot, .. } => {
            state.opened[worker][dst_slot] = true;
        }
        Op::Delete { .. } => {}
    }
    state.has_mutation |= op.is_mutation();
    Some(state)
}

fn canonicalize_workers(workers: &[usize]) -> Vec<usize> {
    let mut next = 0usize;
    let mut mapping = Vec::<Option<usize>>::new();
    let mut canonical = Vec::with_capacity(workers.len());
    for worker in workers {
        if mapping.len() <= *worker {
            mapping.resize(*worker + 1, None);
        }
        let mapped = match mapping[*worker] {
            Some(mapped) => mapped,
            None => {
                let mapped = next;
                next += 1;
                mapping[*worker] = Some(mapped);
                mapped
            }
        };
        canonical.push(mapped);
    }
    canonical
}

fn raw_worker_patterns(len: usize, worker_count: usize) -> BTreeSet<Vec<usize>> {
    let mut patterns = BTreeSet::new();
    for mask in 0..worker_count.pow(len as u32) {
        let mut remaining = mask;
        let mut workers = Vec::with_capacity(len);
        for _ in 0..len {
            workers.push(remaining % worker_count);
            remaining /= worker_count;
        }
        patterns.insert(canonicalize_workers(&workers));
    }
    patterns
}

fn scheduled_worker_patterns(len: usize, worker_count: usize) -> BTreeSet<Vec<usize>> {
    let scheduler = Scheduler::new(worker_count);
    let chain = vec![
        Op::Close { slot: 0 },
        Op::Close { slot: 0 },
        Op::Close { slot: 0 },
        Op::Close { slot: 0 },
    ];
    let chain = &chain[..len];
    let mut patterns = BTreeSet::new();
    for mask in 0..scheduler.schedule_count(chain.len()) {
        let workers = scheduler.workers(chain.len(), mask);
        patterns.insert(canonicalize_workers(&workers));
    }
    patterns
}

fn rec(step: u32, worker: usize, op: Op, rc: i64, err: OracleErr) -> ComparableRecord {
    ComparableRecord::Result {
        step,
        worker: worker as u32,
        op,
        rc,
        err,
        data: Vec::new(),
    }
}

fn case_records(steps: &[(usize, Op, i64, OracleErr)]) -> Vec<ComparableRecord> {
    let mut records = vec![ComparableRecord::Case {
        case_id: 1,
        mask: 0,
    }];
    for (idx, (worker, op, rc, err)) in steps.iter().copied().enumerate() {
        records.push(rec((idx + 1) as u32, worker, op, rc, err));
    }
    records
}

fn actual_not_found(record: &ComparableRecord) -> ComparableRecord {
    let ComparableRecord::Result {
        step, worker, op, ..
    } = record
    else {
        panic!("expected result record");
    };
    rec(*step, *worker as usize, *op, -1, OracleErr::NotFound)
}

fn assert_known_tmp_unlink_ignored(steps: &[(usize, Op, i64, OracleErr)], fail_step: usize) {
    let records = case_records(steps);
    let idx = fail_step;
    let actual = actual_not_found(&records[idx]);
    assert!(
        ignore_known_error(&records, idx, &records[idx], &actual),
        "expected step {fail_step} to be ignored"
    );
}

fn assert_known_tmp_unlink_not_ignored(
    steps: &[(usize, Op, i64, OracleErr)],
    fail_step: usize,
    actual: ComparableRecord,
) {
    let records = case_records(steps);
    let idx = fail_step;
    assert!(
        !ignore_known_error(&records, idx, &records[idx], &actual),
        "expected step {fail_step} to remain reportable"
    );
}

fn delete(file: FileId) -> Op {
    Op::Delete { file }
}

fn open(slot: usize, file: FileId, mode: OpenMode) -> Op {
    Op::Open { slot, file, mode }
}

fn read(slot: usize, size: ReadSize) -> Op {
    Op::Read { slot, size }
}

fn write(slot: usize, payload: WritePayload) -> Op {
    Op::Write { slot, payload }
}

#[test]
fn generator_expands_all_operation_and_worker_permutations() {
    assert_eq!(FILES.len(), 3);
    assert_eq!(SNAPSHOT_FILES.len(), 2);
    assert_eq!(FIXTURE_FILES.len(), 2);
    assert_eq!(concrete_ops().len(), 18);
}

#[test]
fn final_scheduled_case_counts_by_chain_length() {
    let counts: Vec<usize> = (1..=5).map(generated_scheduled_case_count).collect();
    assert_eq!(counts, vec![4, 72, 1_636, 43_248, 1_261_228]);
}

#[test]
fn oracle_sample_ids_are_deterministic_and_spread() {
    let first = sample_case_ids(1000, 20, 1234).unwrap();
    let second = sample_case_ids(1000, 20, 1234).unwrap();
    assert_eq!(first, second);
    assert_eq!(first.len(), 20);
    let min = first.iter().next().copied().unwrap();
    let max = first.iter().next_back().copied().unwrap();
    assert!(max - min > 500);
}

#[test]
fn oracle_sample_ids_change_with_seed() {
    let first = sample_case_ids(1000, 20, 1234).unwrap();
    let second = sample_case_ids(1000, 20, 5678).unwrap();
    assert_ne!(first, second);
}

#[test]
fn theory_trial_fixture_content_is_deterministic_from_name() {
    let first = theory_trial_1_fixture_bytes("file123");
    let second = theory_trial_1_fixture_bytes("file123");
    let other = theory_trial_1_fixture_bytes("file124");
    assert_eq!(first, second);
    assert_ne!(first, other);
    assert!((1..=1024).contains(&first.len()));
    assert!(!first.is_empty());
}

#[test]
fn active_fixture_file_maps_directly_from_run_fixture_id() {
    let root = "/fixtures";
    assert_eq!(
        fixture_path(root, 1, FileId::Fixture1),
        "/fixtures/file1"
    );
    assert_eq!(
        fixture_path(root, 20_000, FileId::Fixture1),
        "/fixtures/file20000"
    );
    assert_eq!(selected_run_fixture_id(1_636, 123, 7), 123);
    assert_eq!(selected_run_fixture_id(1_261_228, 123_456, 7), 7);
}

#[test]
fn active_fixture_file_rejects_runs_larger_than_fixture_pool() {
    let ok = OracleCaseSelection::Range {
        start: 1_000_000,
        end: 1_000_000 + THEORY_TRIAL_1_FIXTURE_COUNT,
        count: THEORY_TRIAL_1_FIXTURE_COUNT,
    };
    assert!(ensure_selected_fixtures_available(&ok).is_ok());

    let too_many = OracleCaseSelection::Range {
        start: 1,
        end: THEORY_TRIAL_1_FIXTURE_COUNT + 2,
        count: THEORY_TRIAL_1_FIXTURE_COUNT + 1,
    };
    assert!(ensure_selected_fixtures_available(&too_many)
        .unwrap_err()
        .contains("exceeds fixture pool size"));
}

#[test]
fn fixture_limit_is_not_enforced_for_full_expected_report_generation() {
    assert!(!OracleSelection::Exhaustive(OracleShard {
        start: 1,
        count: None,
    })
    .enforces_runtime_fixture_limit());
    assert!(OracleSelection::Exhaustive(OracleShard {
        start: 1,
        count: Some(THEORY_TRIAL_1_FIXTURE_COUNT + 1),
    })
    .enforces_runtime_fixture_limit());
    assert!(OracleSelection::Sample {
        count: THEORY_TRIAL_1_FIXTURE_COUNT + 1,
        seed: 1,
    }
    .enforces_runtime_fixture_limit());
}

#[test]
fn verifier_ignores_only_known_tmp_open_unlink_read_write_failures() {
    let cases = [
        (
            vec![
                (0, delete(A), -1, NOT_FOUND),
                (1, delete(B), -1, NOT_FOUND),
                (1, open(0, C, CREATE), -1, NO_ERR),
                (0, delete(C), -1, NO_ERR),
                (1, write(0, WRITE_32), 32, NO_ERR),
            ],
            5,
        ),
        (
            vec![
                (0, delete(A), -1, NOT_FOUND),
                (0, open(0, A, APPEND), -1, NO_ERR),
                (0, open(0, C, APPEND), -1, NO_ERR),
                (1, delete(C), -1, NO_ERR),
                (0, read(0, READ_4K), 0, NO_ERR),
            ],
            5,
        ),
        (
            vec![
                (0, delete(A), -1, NOT_FOUND),
                (1, open(0, C, APPEND), -1, NO_ERR),
                (0, delete(C), -1, NO_ERR),
                (1, delete(C), -1, NOT_FOUND),
                (1, read(0, READ_4K), 0, NO_ERR),
            ],
            5,
        ),
        (
            vec![
                (0, delete(A), -1, NOT_FOUND),
                (0, open(0, C, APPEND), -1, NO_ERR),
                (1, delete(C), -1, NO_ERR),
                (0, delete(C), -1, NOT_FOUND),
                (0, write(0, WRITE_32K), 32768, NO_ERR),
            ],
            5,
        ),
        (
            vec![
                (0, delete(A), -1, NOT_FOUND),
                (0, open(0, C, APPEND), -1, NO_ERR),
                (1, delete(C), -1, NO_ERR),
                (0, open(1, B, APPEND), -1, NO_ERR),
                (0, write(0, WRITE_32), 32, NO_ERR),
            ],
            5,
        ),
        (
            vec![
                (0, delete(A), -1, NOT_FOUND),
                (1, open(0, A, CREATE), -1, NO_ERR),
                (1, open(0, C, APPEND), -1, NO_ERR),
                (0, delete(C), -1, NO_ERR),
                (1, write(0, WRITE_32), 32, NO_ERR),
            ],
            5,
        ),
        (
            vec![
                (0, delete(A), -1, NOT_FOUND),
                (1, open(0, C, CREATE), -1, NO_ERR),
                (1, delete(B), -1, NOT_FOUND),
                (0, delete(C), -1, NO_ERR),
                (1, read(0, READ_4K), 0, NO_ERR),
            ],
            5,
        ),
        (
            vec![
                (0, delete(A), -1, NOT_FOUND),
                (0, open(0, C, CREATE), -1, NO_ERR),
                (1, delete(C), -1, NO_ERR),
                (0, read(0, READ_32), 0, NO_ERR),
                (0, delete(B), -1, NOT_FOUND),
            ],
            4,
        ),
        (
            vec![
                (0, delete(A), -1, NOT_FOUND),
                (1, open(0, C, CREATE), -1, NO_ERR),
                (1, delete(C), -1, NO_ERR),
                (1, read(0, READ_4K), 0, NO_ERR),
                (1, delete(C), -1, NOT_FOUND),
            ],
            4,
        ),
        (
            vec![
                (0, delete(A), -1, NOT_FOUND),
                (0, open(0, C, CREATE), -1, NO_ERR),
                (1, delete(C), -1, NO_ERR),
                (0, write(0, WRITE_4K), 4096, NO_ERR),
                (0, read(0, READ_32), 0, NO_ERR),
            ],
            4,
        ),
        (
            vec![
                (0, delete(A), -1, NOT_FOUND),
                (1, open(0, C, CREATE), -1, NO_ERR),
                (0, delete(C), -1, NO_ERR),
                (1, Op::WriteStderr, 77, NO_ERR),
                (1, write(0, WRITE_32K), 32768, NO_ERR),
            ],
            5,
        ),
        (
            vec![
                (0, delete(A), -1, NOT_FOUND),
                (1, open(0, C, CREATE), -1, NO_ERR),
                (1, Op::WriteStderr, 77, NO_ERR),
                (0, delete(C), -1, NO_ERR),
                (1, write(0, WRITE_4K), 4096, NO_ERR),
            ],
            5,
        ),
        (
            vec![
                (0, delete(C), -1, NO_ERR),
                (0, open(0, C, APPEND), -1, NO_ERR),
                (0, delete(C), -1, NO_ERR),
                (0, write(0, WRITE_32K), 32768, NO_ERR),
                (1, delete(A), -1, NOT_FOUND),
            ],
            4,
        ),
        (
            vec![
                (0, delete(C), -1, NO_ERR),
                (1, open(0, C, CREATE), -1, NO_ERR),
                (0, delete(C), -1, NO_ERR),
                (0, open(0, A, CREATE), -1, NO_ERR),
                (1, read(0, READ_32), 0, NO_ERR),
            ],
            5,
        ),
        (
            vec![
                (0, delete(C), -1, NO_ERR),
                (1, open(0, C, CREATE), -1, NO_ERR),
                (1, delete(C), -1, NO_ERR),
                (0, open(0, A, CREATE), -1, NO_ERR),
                (1, write(0, WRITE_32), 32, NO_ERR),
            ],
            5,
        ),
        (
            vec![
                (0, delete(C), -1, NO_ERR),
                (0, open(0, C, CREATE), -1, NO_ERR),
                (0, delete(C), -1, NO_ERR),
                (0, write(0, WRITE_32), 32, NO_ERR),
                (0, Op::WriteStderr, 77, NO_ERR),
            ],
            4,
        ),
        (
            vec![
                (0, delete(C), -1, NO_ERR),
                (0, open(0, C, CREATE), -1, NO_ERR),
                (1, delete(C), -1, NO_ERR),
                (0, write(0, WRITE_32K), 32768, NO_ERR),
                (0, open(0, C, CREATE), -1, NO_ERR),
            ],
            4,
        ),
        (
            vec![
                (0, open(0, A, APPEND), -1, NO_ERR),
                (1, delete(C), -1, NOT_FOUND),
                (1, open(0, C, CREATE), -1, NO_ERR),
                (1, delete(C), -1, NO_ERR),
                (1, write(0, WRITE_4K), 4096, NO_ERR),
            ],
            5,
        ),
        (
            vec![
                (0, open(0, A, APPEND), -1, NO_ERR),
                (0, delete(C), -1, NOT_FOUND),
                (0, open(1, C, CREATE), -1, NO_ERR),
                (0, delete(C), -1, NO_ERR),
                (0, write(1, WRITE_32), 32, NO_ERR),
            ],
            5,
        ),
    ];

    for (steps, fail_step) in cases {
        assert_known_tmp_unlink_ignored(&steps, fail_step);
    }
}

#[test]
fn verifier_does_not_ignore_near_misses() {
    let persistent_file = vec![
        (0, open(0, A, CREATE), -1, NO_ERR),
        (0, delete(A), -1, NO_ERR),
        (0, write(0, WRITE_32), 32, NO_ERR),
    ];
    assert_known_tmp_unlink_not_ignored(
        &persistent_file,
        3,
        actual_not_found(&case_records(&persistent_file)[3]),
    );

    let failed_delete = vec![
        (0, open(0, C, CREATE), -1, NO_ERR),
        (0, delete(C), -1, NOT_FOUND),
        (0, write(0, WRITE_32), 32, NO_ERR),
    ];
    assert_known_tmp_unlink_not_ignored(
        &failed_delete,
        3,
        actual_not_found(&case_records(&failed_delete)[3]),
    );

    let closed_handle = vec![
        (0, open(0, C, CREATE), -1, NO_ERR),
        (0, delete(C), -1, NO_ERR),
        (0, Op::Close { slot: 0 }, -1, NO_ERR),
        (0, write(0, WRITE_32), -1, BAD_FD),
    ];
    assert_known_tmp_unlink_not_ignored(
        &closed_handle,
        4,
        actual_not_found(&case_records(&closed_handle)[4]),
    );

    let reopened_slot = vec![
        (0, open(0, C, CREATE), -1, NO_ERR),
        (0, delete(C), -1, NO_ERR),
        (0, open(0, C, CREATE), -1, NO_ERR),
        (0, write(0, WRITE_32), 32, NO_ERR),
    ];
    assert_known_tmp_unlink_not_ignored(
        &reopened_slot,
        4,
        actual_not_found(&case_records(&reopened_slot)[4]),
    );

    let stderr_mismatch = vec![
        (0, open(0, C, CREATE), -1, NO_ERR),
        (0, delete(C), -1, NO_ERR),
        (0, Op::WriteStderr, 77, NO_ERR),
    ];
    assert_known_tmp_unlink_not_ignored(
        &stderr_mismatch,
        3,
        actual_not_found(&case_records(&stderr_mismatch)[3]),
    );

    let expected_error = vec![
        (0, open(0, C, CREATE), -1, NO_ERR),
        (0, delete(C), -1, NO_ERR),
        (0, read(0, READ_32), -1, BAD_FD),
    ];
    assert_known_tmp_unlink_not_ignored(
        &expected_error,
        3,
        actual_not_found(&case_records(&expected_error)[3]),
    );

    let actual_bad_fd = vec![
        (0, open(0, C, CREATE), -1, NO_ERR),
        (0, delete(C), -1, NO_ERR),
        (0, write(0, WRITE_32), 32, NO_ERR),
    ];
    assert_known_tmp_unlink_not_ignored(
        &actual_bad_fd,
        3,
        rec(3, 0, write(0, WRITE_32), -1, BAD_FD),
    );
}

#[test]
fn operation_mutation_classification_is_explicit() {
    assert!(Op::Open {
        slot: 0,
        file: FileId::A,
        mode: OpenMode::ReadWriteCreate,
    }
    .is_mutation());
    assert!(Op::Open {
        slot: 0,
        file: FileId::A,
        mode: OpenMode::AppendCreate,
    }
    .is_mutation());
    assert!(Op::Open {
        slot: 0,
        file: FileId::A,
        mode: OpenMode::ReadWriteTruncate,
    }
    .is_mutation());
    assert!(Op::Open {
        slot: 0,
        file: FileId::A,
        mode: OpenMode::ReadWriteCreateNew,
    }
    .is_mutation());
    assert!(Op::Write {
        slot: 0,
        payload: WritePayload::Bytes32,
    }
    .is_mutation());
    assert!(Op::Delete { file: FileId::A }.is_mutation());
    assert!(Op::Dup {
        src_slot: 0,
        dst_slot: 1,
    }
    .is_mutation());

    assert!(!Op::Open {
        slot: 0,
        file: FileId::Fixture1,
        mode: OpenMode::ReadOnlyExisting,
    }
    .is_mutation());
    assert!(!Op::Close { slot: 0 }.is_mutation());
    assert!(!Op::Read {
        slot: 0,
        size: ReadSize::Bytes32,
    }
    .is_mutation());
    assert!(!Op::Seek {
        slot: 0,
        target: SeekTarget::Start,
    }
    .is_mutation());
    assert!(!Op::Fstat { slot: 0 }.is_mutation());
    assert!(!Op::Stat { file: FileId::A }.is_mutation());
    assert!(!Op::ReadDir.is_mutation());
    assert!(!Op::WriteStderr.is_mutation());
}

#[test]
fn operation_fd_requirement_classification_is_explicit() {
    assert!(Op::Close { slot: 0 }.requires_fd());
    assert!(Op::Write {
        slot: 0,
        payload: WritePayload::Bytes32,
    }
    .requires_fd());
    assert!(Op::Read {
        slot: 0,
        size: ReadSize::Bytes32,
    }
    .requires_fd());
    assert!(Op::Seek {
        slot: 0,
        target: SeekTarget::Start,
    }
    .requires_fd());
    assert!(Op::Fstat { slot: 0 }.requires_fd());
    assert!(Op::Dup {
        src_slot: 0,
        dst_slot: 1,
    }
    .requires_fd());

    assert!(!Op::Open {
        slot: 0,
        file: FileId::A,
        mode: OpenMode::ReadWriteCreate,
    }
    .requires_fd());
    assert!(!Op::Open {
        slot: 0,
        file: FileId::Fixture1,
        mode: OpenMode::ReadOnlyExisting,
    }
    .requires_fd());
    assert!(!Op::Stat { file: FileId::A }.requires_fd());
    assert!(!Op::Delete { file: FileId::A }.requires_fd());
    assert!(!Op::ReadDir.requires_fd());
    assert!(!Op::WriteStderr.requires_fd());
}

#[test]
fn operation_spec_expansion_metadata_is_explicit() {
    let cases = [
        (OpSpec::Open(OpenMode::ReadWriteCreate), true, true),
        (OpSpec::Open(OpenMode::ReadOnlyExisting), true, true),
        (OpSpec::Close, false, true),
        (OpSpec::Write(WritePayload::Bytes32), false, true),
        (OpSpec::Read(ReadSize::Bytes32), false, true),
        (OpSpec::Seek(SeekTarget::Start), false, true),
        (OpSpec::Fstat, false, true),
        (OpSpec::Stat, true, false),
        (OpSpec::ReadDir, false, false),
        (OpSpec::WriteStderr, false, false),
        (OpSpec::Dup, false, true),
        (OpSpec::Delete, true, false),
    ];

    for (spec, needs_file, needs_fd) in cases {
        assert_eq!(spec.needs_file(), needs_file, "{spec:?}");
        assert_eq!(spec.needs_fd(), needs_fd, "{spec:?}");
    }
}

#[test]
fn bad_fd_errors_are_canonicalized_by_name_not_only_errno() {
    let host_bad_fd = std::io::Error::from_raw_os_error(9);
    assert_eq!(errcode(&failure(&host_bad_fd), false), OracleErr::BadFd);

    let wasix_bad_fd = std::io::Error::new(std::io::ErrorKind::Other, "Bad file descriptor");
    assert_eq!(errcode(&failure(&wasix_bad_fd), false), OracleErr::BadFd);

    let wasi_badf_name = std::io::Error::new(std::io::ErrorKind::Other, "BADF");
    assert_eq!(errcode(&failure(&wasi_badf_name), false), OracleErr::BadFd);

    assert_ne!(
        errcode(&failure(&std::io::Error::from_raw_os_error(8)), false),
        OracleErr::BadFd
    );
}

#[test]
fn non_mutating_chains_are_filtered() {
    assert!(!chain_is_enabled(&[
        Op::Close { slot: 0 },
        Op::Read {
            slot: 0,
            size: ReadSize::Bytes32,
        },
    ]));
    assert!(chain_is_enabled(&[
        Op::Close { slot: 0 },
        Op::Write {
            slot: 0,
            payload: WritePayload::Bytes32,
        },
    ]));
}

#[test]
fn scheduled_case_normalization_filters_fd_ops_before_open() {
    let opened_then_stale_write = vec![
        ScheduledStep {
            worker: 0,
            op: Op::Open {
                slot: 0,
                file: FileId::A,
                mode: OpenMode::ReadWriteCreate,
            },
        },
        ScheduledStep {
            worker: 0,
            op: Op::Close { slot: 0 },
        },
        ScheduledStep {
            worker: 0,
            op: Op::Write {
                slot: 0,
                payload: WritePayload::Bytes32,
            },
        },
    ];
    assert_eq!(
        normalize_scheduled_case(&opened_then_stale_write),
        opened_then_stale_write
    );
    assert!(scheduled_case_is_enabled(&opened_then_stale_write));

    let never_opened_write = vec![
        ScheduledStep {
            worker: 0,
            op: Op::Close { slot: 0 },
        },
        ScheduledStep {
            worker: 0,
            op: Op::Close { slot: 0 },
        },
        ScheduledStep {
            worker: 0,
            op: Op::Write {
                slot: 0,
                payload: WritePayload::Bytes32,
            },
        },
    ];
    assert!(normalize_scheduled_case(&never_opened_write).is_empty());
    assert!(!scheduled_case_is_enabled(&never_opened_write));
}

#[test]
fn scheduled_case_normalization_canonicalizes_worker_fd_slots() {
    let canonical = vec![
        ScheduledStep {
            worker: 0,
            op: Op::Open {
                slot: 0,
                file: FileId::A,
                mode: OpenMode::ReadWriteCreate,
            },
        },
        ScheduledStep {
            worker: 0,
            op: Op::Write {
                slot: 0,
                payload: WritePayload::Bytes32,
            },
        },
    ];
    assert_eq!(normalize_scheduled_case(&canonical), canonical);
    assert!(scheduled_case_is_enabled(&canonical));

    let renamed_duplicate = vec![
        ScheduledStep {
            worker: 0,
            op: Op::Open {
                slot: 1,
                file: FileId::A,
                mode: OpenMode::ReadWriteCreate,
            },
        },
        ScheduledStep {
            worker: 0,
            op: Op::Write {
                slot: 1,
                payload: WritePayload::Bytes32,
            },
        },
    ];
    assert_eq!(normalize_scheduled_case(&renamed_duplicate), canonical);
    assert!(!scheduled_case_is_enabled(&renamed_duplicate));

    let per_worker_slots_are_independent = vec![
        ScheduledStep {
            worker: 0,
            op: Op::Open {
                slot: 0,
                file: FileId::A,
                mode: OpenMode::ReadWriteCreate,
            },
        },
        ScheduledStep {
            worker: 1,
            op: Op::Open {
                slot: 0,
                file: FileId::A,
                mode: OpenMode::ReadWriteCreate,
            },
        },
    ];
    assert!(scheduled_case_is_enabled(&per_worker_slots_are_independent));
}

#[test]
fn scheduled_case_normalization_canonicalizes_persistent_files() {
    let canonical = vec![
        ScheduledStep {
            worker: 0,
            op: Op::Open {
                slot: 0,
                file: FileId::A,
                mode: OpenMode::ReadWriteCreate,
            },
        },
        ScheduledStep {
            worker: 0,
            op: Op::Write {
                slot: 0,
                payload: WritePayload::Bytes32,
            },
        },
    ];
    assert!(scheduled_case_is_enabled(&canonical));

    let renamed_duplicate = vec![
        ScheduledStep {
            worker: 0,
            op: Op::Open {
                slot: 0,
                file: FileId::B,
                mode: OpenMode::ReadWriteCreate,
            },
        },
        ScheduledStep {
            worker: 0,
            op: Op::Write {
                slot: 0,
                payload: WritePayload::Bytes32,
            },
        },
    ];
    assert_eq!(normalize_scheduled_case(&renamed_duplicate), canonical);
    assert!(!scheduled_case_is_enabled(&renamed_duplicate));

    let swapped = vec![
        ScheduledStep {
            worker: 0,
            op: Op::Open {
                slot: 0,
                file: FileId::B,
                mode: OpenMode::ReadWriteCreate,
            },
        },
        ScheduledStep {
            worker: 0,
            op: Op::Open {
                slot: 1,
                file: FileId::A,
                mode: OpenMode::ReadWriteCreate,
            },
        },
    ];
    let canonical_swapped = vec![
        ScheduledStep {
            worker: 0,
            op: Op::Open {
                slot: 0,
                file: FileId::A,
                mode: OpenMode::ReadWriteCreate,
            },
        },
        ScheduledStep {
            worker: 0,
            op: Op::Open {
                slot: 1,
                file: FileId::B,
                mode: OpenMode::ReadWriteCreate,
            },
        },
    ];
    assert_eq!(normalize_scheduled_case(&swapped), canonical_swapped);
    assert!(!scheduled_case_is_enabled(&swapped));

    let tmp_file_is_not_canonicalized = vec![ScheduledStep {
        worker: 0,
        op: Op::Open {
            slot: 0,
            file: FileId::C,
            mode: OpenMode::ReadWriteCreate,
        },
    }];
    assert_eq!(
        normalize_scheduled_case(&tmp_file_is_not_canonicalized),
        tmp_file_is_not_canonicalized
    );
    assert!(scheduled_case_is_enabled(&tmp_file_is_not_canonicalized));
}

#[test]
fn scheduler_keeps_one_representative_per_thread_renaming_class() {
    for len in 1..=4 {
        assert_eq!(
            scheduled_worker_patterns(len, WORKERS),
            raw_worker_patterns(len, WORKERS)
        );
    }
}
