use std::collections::{BTreeSet, HashMap};

use fsx_wasix::compare::report_case_ids;
use fsx_wasix::errors::{FailureKind, IoFailure};
use fsx_wasix::exec::{
    complete_job, empty_workers, files_to_record, plan_job, snapshot, CaseRun, FdSlot, FdTarget,
    FileRead, Job, Outcome, Request, State,
};
use fsx_wasix::fixtures::{
    fixture_needs_writing, fixture_path, theory_trial_1_fixture_bytes,
    theory_trial_1_fixture_name,
};
use fsx_wasix::listing::{read_dir_listing, DirName};
use fsx_wasix::ops::{FileId, Op, OpenMode, SeekTarget, WritePayload, WORKERS};
use fsx_wasix::reader::read_report;
use fsx_wasix::report::{
    case_name, ComparableRecord, MemoryCaseRecorder, ReportSink, ReportWriter, TeeReportSink,
};
use fsx_wasix::result::{OpResult, OracleErr};
use fsx_wasix::sample::{SamplePlan, SampleScan, ScanStep};
use fsx_wasix::selection::{OracleSelection, OracleShard, THEORY_TRIAL_1_FIXTURE_COUNT};
use fsx_wasix::suite::{PlannedCase, SuiteCounter, SuiteRun};
use fsx_wasix::verify::compare_reports;

struct OpenFile {
    inode: usize,
    pos: u64,
    read: bool,
    write: bool,
    append: bool,
}

/// A host whose files are kept in memory.
#[derive(Default)]
struct MemoryHost {
    names: HashMap<String, usize>,
    inodes: Vec<Vec<u8>>,
    open: HashMap<u64, OpenFile>,
    next: u64,
}

fn failed(kind: FailureKind, message: &str, errno: i32) -> Outcome {
    Outcome::Failed(IoFailure {
        kind,
        message: message.to_string(),
        errno: Some(errno),
    })
}

impl MemoryHost {
    fn put(&mut self, path: &str, data: Vec<u8>) -> usize {
        self.inodes.push(data);
        let inode = self.inodes.len() - 1;
        self.names.insert(path.to_string(), inode);
        inode
    }

    fn keep(&mut self, file: OpenFile) -> Outcome {
        self.next += 1;
        self.open.insert(self.next, file);
        Outcome::Kept(self.next)
    }

    fn target(&mut self, target: FdTarget) -> Option<&mut OpenFile> {
        match target {
            FdTarget::Kept(id) => self.open.get_mut(&id),
            FdTarget::Raw(_) => None,
        }
    }

    fn perform(&mut self, request: Request) -> Outcome {
        let bad = failed(FailureKind::Other, "Bad file descriptor", 9);
        match request {
            Request::Open { path, mode } => {
                let there = self.names.get(&path).copied();
                let inode = match (there, mode) {
                    (Some(_), OpenMode::ReadWriteCreateNew) => {
                        return failed(FailureKind::AlreadyExists, "File exists", 17)
                    }
                    (None, OpenMode::ReadOnlyExisting) => {
                        return failed(FailureKind::NotFound, "No such file or directory", 2)
                    }
                    (Some(inode), OpenMode::ReadWriteTruncate) => {
                        self.inodes[inode].clear();
                        inode
                    }
                    (Some(inode), _) => inode,
                    (None, _) => self.put(&path, Vec::new()),
                };
                self.keep(OpenFile {
                    inode,
                    pos: 0,
                    read: true,
                    write: mode != OpenMode::ReadOnlyExisting,
                    append: mode == OpenMode::AppendCreate,
                })
            }
            Request::Close { file } => {
                self.open.remove(&file);
                Outcome::ClosedRaw(file as i32)
            }
            Request::Write { target, bytes } => {
                let Some(file) = self.target(target) else {
                    return bad;
                };
                if !file.write {
                    return bad;
                }
                let (inode, append) = (file.inode, file.append);
                let len = self.inodes[inode].len();
                let file = self.target(target).unwrap();
                let start = if append { len } else { file.pos as usize };
                file.pos = (start + bytes.len()) as u64;
                let data = &mut self.inodes[inode];
                if data.len() < start + bytes.len() {
                    data.resize(start + bytes.len(), 0);
                }
                data[start..start + bytes.len()].copy_from_slice(&bytes);
                Outcome::Count(bytes.len() as u64)
            }
            Request::Read { target, len } => {
                let Some(file) = self.target(target) else {
                    return bad;
                };
                if !file.read {
                    return bad;
                }
                let (inode, pos) = (file.inode, file.pos as usize);
                let data = &self.inodes[inode];
                let end = data.len().min(pos + len);
                let out = if pos < end {
                    data[pos..end].to_vec()
                } else {
                    Vec::new()
                };
                self.target(target).unwrap().pos += out.len() as u64;
                Outcome::Data(out)
            }
            Request::WriteStderr { bytes } => {
                assert_eq!(bytes.len(), 77);
                assert!(bytes.starts_with(b"FSX_ORACLE_STDERR_MARKER"));
                Outcome::Finished
            }
            Request::Dup { target } => {
                let Some(file) = self.target(target) else {
                    return bad;
                };
                let copy = OpenFile {
                    inode: file.inode,
                    pos: file.pos,
                    read: file.read,
                    write: file.write,
                    append: file.append,
                };
                self.keep(copy)
            }
            Request::Delete { path } => match self.names.remove(&path) {
                Some(_) => Outcome::Finished,
                None => failed(FailureKind::NotFound, "No such file or directory", 2),
            },
            Request::Seek { target, to } => {
                let Some(file) = self.target(target) else {
                    return bad;
                };
                let inode = file.inode;
                let len = self.inodes[inode].len() as u64;
                let file = self.target(target).unwrap();
                file.pos = match to {
                    SeekTarget::Start => 0,
                    SeekTarget::End => len,
                };
                Outcome::Count(file.pos)
            }
            Request::Fstat { target } => match self.target(target) {
                Some(file) => {
                    let inode = file.inode;
                    Outcome::Count(self.inodes[inode].len() as u64)
                }
                None => bad,
            },
            Request::Stat { path } => match self.names.get(&path) {
                Some(inode) => Outcome::Count(self.inodes[*inode].len() as u64),
                None => failed(FailureKind::NotFound, "No such file or directory", 2),
            },
            Request::ReadDir { path } => {
                let front = format!("{path}/");
                Outcome::Names(
                    self.names
                        .keys()
                        .filter_map(|name| name.strip_prefix(&front))
                        .filter(|rest| !rest.contains('/'))
                        .map(|rest| DirName {
                            text: rest.to_string(),
                            exact: true,
                        })
                        .collect(),
                )
            }
            Request::Done { .. } => panic!("nothing is left to do"),
        }
    }
}

fn execute_job(worker: usize, state: &mut State, host: &mut MemoryHost, job: &Job) -> OpResult {
    match plan_job(worker, state, job) {
        Request::Done { result } => result,
        request => {
            let outcome = host.perform(request);
            complete_job(worker, state, job.op, outcome, false)
        }
    }
}

fn run_case<S: ReportSink>(case: PlannedCase, root: &str, host: &mut MemoryHost, sink: &mut S) {
    let name = case_name(case.case_id as u64);
    let case_root = format!("{root}/{name}");
    let fixtures = "/fixtures";
    sink.case(case.case_id, case.mask, &case.chain);
    let mut state = State {
        workers: empty_workers(WORKERS),
    };
    let mut run = CaseRun::new(case.steps);
    while let Some(step) = run.begin_step(sink) {
        let job = Job {
            op: step.op,
            case_root: case_root.clone(),
            fixture_id: case.fixture_id,
            fixture_root: fixtures.to_string(),
        };
        let result = execute_job(step.worker, &mut state, host, &job);
        run.finish_step(&result, sink);
    }
    for file in files_to_record(&case.chain) {
        let path = file.resolved_path(&case_root, fixtures, case.fixture_id);
        let read = match host.names.get(&path) {
            Some(inode) => FileRead::Data(host.inodes[*inode].clone()),
            None => FileRead::Missing,
        };
        snapshot(case.case_id, &name, file, &path, &read, sink).unwrap();
    }
}

fn host_with_fixtures(count: usize) -> MemoryHost {
    let mut host = MemoryHost::default();
    for i in 1..=count {
        let name = theory_trial_1_fixture_name(i);
        let path = format!("/fixtures/{name}");
        let existing = host.names.get(&path).map(|i| host.inodes[*i].clone());
        if fixture_needs_writing(&existing, &name) {
            host.put(&path, theory_trial_1_fixture_bytes(&name));
        }
    }
    host
}

fn run_suite(report: &str, len: usize, selection: OracleSelection) -> Vec<u8> {
    let mut counter = SuiteCounter::new(len).unwrap();
    while counter.step().unwrap() {}
    let total = counter.cases();
    let selected = selection.selected_case_ids(total).unwrap();
    let mut run = SuiteRun::new(counter, selected);
    let mut host = host_with_fixtures(200);
    let mut writer = ReportWriter::create(report, len, "run");
    while let Some(case) = run.next_case() {
        run_case(case, "/run", &mut host, &mut writer);
    }
    writer.end(total);
    writer.file_bytes()
}

fn all() -> OracleSelection {
    OracleSelection::Exhaustive(OracleShard {
        start: 1,
        count: None,
    })
}

#[test]
fn oracle_shard_report_compares_against_full_report() {
    let full = run_suite("full.bin.gz", 1, all());
    let shard = run_suite(
        "shard.bin",
        1,
        OracleSelection::Exhaustive(OracleShard {
            start: 2,
            count: Some(3),
        }),
    );

    compare_reports("full.bin.gz", full, "shard.bin", shard.clone()).unwrap();

    let shard = read_report("shard.bin", shard).unwrap();
    assert_eq!(report_case_ids(&shard.records), BTreeSet::from([2, 3, 4]));
    assert!(matches!(
        shard.records.last(),
        Some(ComparableRecord::End { cases: 4 })
    ));
}

#[test]
fn oracle_sample_report_compares_against_full_report() {
    let full = run_suite("full.bin.gz", 2, all());
    let sample = run_suite(
        "sample.bin",
        2,
        OracleSelection::Sample { count: 7, seed: 7 },
    );

    compare_reports("full.bin.gz", full, "sample.bin", sample.clone()).unwrap();

    let sample = read_report("sample.bin", sample).unwrap();
    assert_eq!(report_case_ids(&sample.records).len(), 7);
    assert!(matches!(
        sample.records.last(),
        Some(ComparableRecord::End { cases: 72 })
    ));
}

#[test]
fn streamed_sample_report_compares_against_full_report() {
    let full = run_suite("full.bin.gz", 2, all());
    let plan = SamplePlan::new(2, 20, 100).unwrap();
    let mut scan = SampleScan::open(plan, "full.bin.gz", full.clone()).unwrap();
    let mut host = host_with_fixtures(200);
    let mut report = ReportWriter::create("sample.bin", 2, "run");
    loop {
        match scan.step().unwrap() {
            ScanStep::Passed | ScanStep::Skipped => {}
            ScanStep::Run { case } => {
                let mut sink = TeeReportSink {
                    report,
                    memory: MemoryCaseRecorder::new(),
                };
                run_case(case, "/sampled", &mut host, &mut sink);
                report = sink.report;
                scan.took(sink.memory.records);
            }
            ScanStep::Ended { cases } => {
                report.end(cases);
                break;
            }
        }
    }
    scan.finish().unwrap();
    let sample = report.file_bytes();

    compare_reports("full.bin.gz", full, "sample.bin", sample.clone()).unwrap();

    let sample = read_report("sample.bin", sample).unwrap();
    let selected = report_case_ids(&sample.records).len();
    assert!(selected > 0 && selected < 72);
    assert!(matches!(
        sample.records.last(),
        Some(ComparableRecord::End { cases: 72 })
    ));
}

#[test]
fn theory_trial_fixtures_are_generated_for_oracle_ops() {
    let host = host_with_fixtures(THEORY_TRIAL_1_FIXTURE_COUNT);
    let contents = |path: &str| host.names.get(path).map(|i| host.inodes[*i].clone());
    assert_eq!(
        contents("/fixtures/file1"),
        Some(theory_trial_1_fixture_bytes("file1"))
    );
    assert!(contents(&fixture_path("/fixtures", 1, FileId::Fixture1)).is_some());
    assert!(contents(&fixture_path("/fixtures", 1, FileId::Fixture2)).is_some());
}

#[test]
fn read_dir_listing_ignores_nfs_tombstones() {
    let names = vec![
        DirName {
            text: "A".to_string(),
            exact: true,
        },
        DirName {
            text: ".nfs123456".to_string(),
            exact: true,
        },
    ];
    let listing = String::from_utf8(read_dir_listing(&names)).unwrap();
    assert_eq!(listing, "A");
}

#[test]
fn listings_are_in_the_order_of_their_bytes() {
    let names = ["b", "B", "aa", "a", "é", "z", ".x"]
        .iter()
        .map(|s| DirName {
            text: s.to_string(),
            exact: true,
        })
        .collect::<Vec<_>>();
    let listing = String::from_utf8(read_dir_listing(&names)).unwrap();
    assert_eq!(listing, ".x\nB\na\naa\nb\nz\né");
    let inexact = vec![DirName {
        text: ".nfs1".to_string(),
        exact: false,
    }];
    assert_eq!(read_dir_listing(&inexact), b".nfs1".to_vec());
}

#[test]
fn fd_slots_are_scoped_to_executing_worker() {
    let mut host = host_with_fixtures(200);
    let mut state = State {
        workers: empty_workers(2),
    };
    let job = |op: Op| Job {
        op,
        case_root: "/root".to_string(),
        fixture_id: 1,
        fixture_root: "/fixtures".to_string(),
    };
    let open = Op::Open {
        slot: 0,
        file: FileId::A,
        mode: OpenMode::ReadWriteCreate,
    };
    let write = Op::Write {
        slot: 0,
        payload: WritePayload::Bytes32,
    };

    let t1_open = execute_job(0, &mut state, &mut host, &job(open));
    let t2_open = execute_job(1, &mut state, &mut host, &job(open));
    let t1_close = execute_job(0, &mut state, &mut host, &job(Op::Close { slot: 0 }));
    let t1_write_after_close = execute_job(0, &mut state, &mut host, &job(write));
    let t2_write_after_t1_close = execute_job(1, &mut state, &mut host, &job(write));

    assert_eq!(t1_open.err, OracleErr::NoErr);
    assert_eq!(t2_open.err, OracleErr::NoErr);
    assert_eq!(t1_close.err, OracleErr::NoErr);
    assert_eq!(t1_write_after_close.err, OracleErr::BadFd);
    let ok = OpResult::ok(32);
    assert_eq!(
        (
            t2_write_after_t1_close.rc,
            t2_write_after_t1_close.err,
            t2_write_after_t1_close.data
        ),
        (ok.rc, ok.err, ok.data)
    );
    assert!(matches!(state.workers[0].slots[0], FdSlot::Closed(_)));
}

#[test]
fn every_op_asks_and_answers() {
    let mut host = host_with_fixtures(200);
    let mut state = State {
        workers: empty_workers(2),
    };
    let mut run = |op: Op| {
        let job = Job {
            op,
            case_root: "/root".to_string(),
            fixture_id: 1,
            fixture_root: "/fixtures".to_string(),
        };
        let r = execute_job(0, &mut state, &mut host, &job);
        (r.rc, r.err, r.data)
    };
    let open = |slot: usize, file: FileId, mode: OpenMode| Op::Open { slot, file, mode };
    let read = |slot: usize| Op::Read {
        slot,
        size: fsx_wasix::ops::ReadSize::Bytes32,
    };
    assert_eq!(run(Op::Close { slot: 0 }), (-1, OracleErr::BadFd, vec![]));
    assert_eq!(run(read(1)), (-1, OracleErr::BadFd, vec![]));
    assert_eq!(
        run(open(0, FileId::A, OpenMode::ReadOnlyExisting)),
        (-1, OracleErr::NotFound, vec![])
    );
    assert_eq!(
        run(open(0, FileId::A, OpenMode::AppendCreate)),
        (-1, OracleErr::NoErr, vec![])
    );
    assert_eq!(
        run(open(1, FileId::A, OpenMode::ReadWriteCreateNew)),
        (-1, OracleErr::AlreadyExists, vec![])
    );
    let write = Op::Write {
        slot: 0,
        payload: WritePayload::Bytes32,
    };
    assert_eq!(run(write), (32, OracleErr::NoErr, vec![]));
    assert_eq!(run(Op::Fstat { slot: 0 }), (32, OracleErr::NoErr, vec![]));
    assert_eq!(
        run(Op::Stat { file: FileId::A }),
        (32, OracleErr::NoErr, vec![])
    );
    let dup = Op::Dup {
        src_slot: 0,
        dst_slot: 1,
    };
    assert_eq!(run(dup), (0, OracleErr::NoErr, vec![]));
    let seek = Op::Seek {
        slot: 1,
        target: SeekTarget::Start,
    };
    assert_eq!(run(seek), (0, OracleErr::NoErr, vec![]));
    assert_eq!(run(read(1)), (32, OracleErr::NoErr, vec![b'A'; 32]));
    assert_eq!(run(Op::WriteStderr), (77, OracleErr::NoErr, vec![]));
    assert_eq!(run(Op::ReadDir), (1, OracleErr::NoErr, b"A".to_vec()));
    assert_eq!(
        run(Op::Delete { file: FileId::A }),
        (-1, OracleErr::NoErr, vec![])
    );
    assert_eq!(
        run(Op::Delete { file: FileId::A }),
        (-1, OracleErr::NotFound, vec![])
    );
    assert_eq!(run(Op::ReadDir), (0, OracleErr::NoErr, vec![]));
}

#[test]
fn a_changed_report_is_found_out() {
    let full = run_suite("full.bin", 1, all());
    let mut changed = full.clone();
    // The last snapshot stands before the end mark and the number of cases.
    let at = changed.len() - 3;
    changed[at] ^= 1;
    let e = compare_reports("full.bin", full.clone(), "changed.bin", changed).unwrap_err();
    assert!(e.starts_with("oracle found 1 mismatch(es), showing up to 20\n\n"), "{e}");
    let longer = run_suite("longer.bin", 2, all());
    assert_eq!(
        compare_reports("full.bin", full.clone(), "longer.bin", longer).unwrap_err(),
        "oracle chain length mismatch: expected 1, actual 2"
    );
    let e = read_report("cut.bin", full[..full.len() - 1].to_vec());
    assert!(e.is_err());
}

#[test]
fn suites_have_the_counted_cases() {
    for (len, cases) in [(1, 4), (2, 72), (3, 1_636)] {
        let mut counter = SuiteCounter::new(len).unwrap();
        assert_eq!(counter.chain_count(), 18usize.pow(len as u32));
        while counter.step().unwrap() {}
        assert_eq!(counter.cases(), cases);
        assert_eq!(
            fsx_wasix::suite::known_scheduled_case_count(len),
            Some(cases)
        );
    }
    assert_eq!(
        SuiteCounter::new(40).err(),
        Some("oracle chain count overflows usize for length 40".to_string())
    );
}
