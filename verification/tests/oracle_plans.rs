use std::collections::HashMap;

use fsx_wasix::catalog::{catalog_key, catalog_report, catalog_syscalls};
use fsx_wasix::cli::Cli;
use fsx_wasix::errors::{errcode, FailureKind, IoFailure};
use fsx_wasix::fixtures::{
    fixture_needs_writing, fixture_path, theory_trial_1_fixture_bytes,
    theory_trial_1_fixture_name, theory_trial_1_fixture_root, tmp_file_path, tmp_files,
};
use fsx_wasix::hash::stable_hash;
use fsx_wasix::ops::FileId;
use fsx_wasix::oracle::{
    counting_line, oracle_plan, oracle_plan_with_drawn, oracle_root, prepare_root, run_name,
    run_phases, run_root_candidate, sample_scan_line, verify_line, OraclePlan, Phase, RootAction,
};
use fsx_wasix::reader::OracleReport;
use fsx_wasix::report::FileSnapshot;
use fsx_wasix::result::OracleErr;
use fsx_wasix::sample::SamplePlan;
use fsx_wasix::selection::{
    seed_is_drawn, OracleCaseSelection, OracleSelection, OracleShard,
    THEORY_TRIAL_1_FIXTURE_COUNT,
};
use fsx_wasix::suite::known_scheduled_case_count;
use fsx_wasix::verify::{external_base, external_snapshots, verify_snapshot_file, HostFile};

fn cli() -> Cli {
    Cli {
        opnum: 1,
        config: None,
        monitor: None,
        numops: None,
        artifacts_dir: None,
        seed: None,
        threads: None,
        server: None,
        orchestrated: false,
        oracle: true,
        oracle_prepare_fixtures: None,
        oracle_fixtures: None,
        oracle_output: None,
        oracle_expected: None,
        oracle_case_start: None,
        oracle_case_count: None,
        oracle_sample_count: None,
        oracle_verify_files: None,
        oracle_catalog: false,
        oracle_catalog_key: false,
        oracle_catalog_syscalls: false,
        scenario: "shared-inode".to_string(),
        files: 2,
        handles: 8,
        parallelism: 1,
        verify_every: None,
        manifest: None,
        fname: Some("/r/oracle".to_string()),
        inject: None,
    }
}

#[test]
fn the_catalog_is_described() {
    assert_eq!(
        catalog_syscalls(),
        "close, open(append_create), open(read_write_create), read(32_bytes:32), write(32_bytes:32)"
    );
    assert_eq!(catalog_key(), "d025cced007899ba");
    assert_eq!(
        catalog_report(),
        "oracle_catalog_key=d025cced007899ba\nreport_version=1\nworkers=2\nfd_slots=2\nrequire_mutation=true\nnormalization_version=4\nerror_normalization_version=1\nfiles=A,B,F1\nsnapshots=A,B\nop_catalog:\n- close\n- open(append_create)\n- open(read_write_create)\n- read(32_bytes:32)\n- write(32_bytes:32)\nsyscalls=close, open(append_create), open(read_write_create), read(32_bytes:32), write(32_bytes:32)\nconcrete_ops=18\n"
    );
}

#[test]
fn roots_are_prepared() {
    let mut c = cli();
    assert_eq!(oracle_root(&c), Ok("/r/oracle".to_string()));
    c.fname = None;
    assert_eq!(oracle_root(&c), Err("oracle root is required".to_string()));
    for root in ["/", "/tmp", "/data", "/volume"] {
        assert_eq!(
            prepare_root(root, true, true).err(),
            Some(format!(
                "refusing to use broad oracle root {root}; pass a child directory"
            ))
        );
    }
    assert_eq!(prepare_root("/x", true, true), Ok(RootAction::Use));
    assert_eq!(prepare_root("/x", false, false), Ok(RootAction::Create));
    assert_eq!(
        prepare_root("/x", true, false),
        Err("oracle root /x is not a directory".to_string())
    );
    assert_eq!(run_root_candidate("/x", 7), Ok("/x/run-000007".to_string()));
    assert_eq!(
        run_root_candidate("/x", 1_000_000),
        Ok("/x/run-1000000".to_string())
    );
    assert_eq!(
        run_root_candidate("/x", 1_000_001),
        Err("failed to allocate a fresh run directory under /x".to_string())
    );
    assert_eq!(run_name("/x/run-000007"), Ok("run-000007".to_string()));
    assert_eq!(run_name("/"), Err("invalid oracle run root /".to_string()));
}

fn error(c: &Cli) -> Option<String> {
    oracle_plan_with_drawn(c, "/r", Ok(4)).err()
}

#[test]
fn plans_follow_the_options() {
    let mut c = cli();
    let plan = oracle_plan_with_drawn(&c, "/r", Ok(4)).ok().unwrap();
    assert_eq!((plan.len, plan.output.as_str()), (2, "/r/oracle-report.bin"));
    assert_eq!(
        plan.selection,
        OracleSelection::Exhaustive(OracleShard {
            start: 1,
            count: None
        })
    );
    assert!(plan.announces);
    c.numops = Some(0);
    assert_eq!(
        error(&c).as_deref(),
        Some("oracle sequence length must be greater than zero")
    );
    c.numops = Some(3);
    c.oracle_case_start = Some(0);
    assert_eq!(
        error(&c).as_deref(),
        Some("--case-start must be greater than zero")
    );
    c.oracle_case_start = Some(5);
    c.oracle_case_count = Some(0);
    assert_eq!(
        error(&c).as_deref(),
        Some("--case-count must be greater than zero")
    );
    c.oracle_sample_count = Some(9);
    assert_eq!(
        error(&c).as_deref(),
        Some("--oracle-sample-count cannot be combined with --case-start or --case-count")
    );
    c.oracle_sample_count = Some(0);
    assert_eq!(
        error(&c).as_deref(),
        Some("--oracle-sample-count must be greater than zero")
    );
    let mut c = cli();
    c.oracle_sample_count = Some(9);
    c.oracle_output = Some("o".to_string());
    let plan = oracle_plan_with_drawn(&c, "/r", Ok(4)).ok().unwrap();
    assert_eq!(
        plan.selection,
        OracleSelection::Sample { count: 9, seed: 4 }
    );
    assert!(!plan.announces);
    c.seed = Some(77);
    assert_eq!(
        oracle_plan(&c, "/r").ok().unwrap().selection,
        OracleSelection::Sample { count: 9, seed: 77 }
    );
}

fn told(plan: &OraclePlan) -> Vec<String> {
    run_phases(plan)
        .into_iter()
        .map(|phase| match phase {
            Phase::Say { status } => format!(
                "{}: {} {:?} {:?}",
                status.phase, status.message, status.expected, status.actual
            ),
            Phase::Stream {
                count,
                seed,
                expected,
            } => format!("stream {count} {seed} {expected}"),
            Phase::Suite => "suite".to_string(),
            Phase::Compare { expected } => format!("compare {expected}"),
            Phase::Announce { line } => line,
        })
        .collect()
}

#[test]
fn runs_go_through_their_phases() {
    let mut c = cli();
    let plan = oracle_plan(&c, "/r").ok().unwrap();
    assert_eq!(
        told(&plan),
        ["suite", "oracle report written to /r/oracle-report.bin"]
    );
    c.oracle_output = Some("o".to_string());
    assert_eq!(told(&oracle_plan(&c, "/r").ok().unwrap()), ["suite"]);
    c.oracle_expected = Some("e".to_string());
    assert_eq!(
        told(&oracle_plan(&c, "/r").ok().unwrap()),
        [
            "suite",
            "verifying: verifying o against e Some(\"e\") Some(\"o\")",
            "compare e",
            "verified: verified against e Some(\"e\") Some(\"o\")",
        ]
    );
    c.oracle_sample_count = Some(3);
    c.seed = Some(8);
    assert_eq!(
        told(&oracle_plan(&c, "/r").ok().unwrap()),
        [
            "sampling: sample seed=8 count=3 None Some(\"o\")",
            "verifying: streaming sampled oracle from e into o Some(\"e\") Some(\"o\")",
            "stream 3 8 e",
            "verified: sampled oracle verified against e Some(\"e\") Some(\"o\")",
        ]
    );
    c.oracle_expected = None;
    assert_eq!(
        told(&oracle_plan(&c, "/r").ok().unwrap()),
        ["sampling: sample seed=8 count=3 None Some(\"o\")", "suite"]
    );
}

#[test]
fn lines_say_how_far_a_run_is() {
    assert_eq!(counting_line("x"), "counting chains x");
    assert_eq!(
        sample_scan_line("x", 3, 9),
        "sample scan x selected=3 target=9"
    );
    assert_eq!(verify_line("x", 3, 9), "verify x selected=3/9");
}

#[test]
fn selections_take_their_cases() {
    let shard = |start: usize, count: Option<usize>| {
        OracleSelection::Exhaustive(OracleShard { start, count })
    };
    let s = shard(3, Some(4)).selected_case_ids(10).ok().unwrap();
    assert_eq!(s.len(), 4);
    assert!(!s.contains(2) && s.contains(3) && s.contains(6) && !s.contains(7));
    assert!(!s.is_complete(3) && s.is_complete(4));
    let s = shard(9, Some(100)).selected_case_ids(10).ok().unwrap();
    assert_eq!(s.len(), 2);
    assert!(shard(11, None).selected_case_ids(10).is_err());
    let s = OracleSelection::Sample { count: 4, seed: 1 }
        .selected_case_ids(10)
        .ok()
        .unwrap();
    assert!(matches!(s, OracleCaseSelection::Sample { count: 4, .. }));
    assert_eq!((0..100).filter(|id| s.contains(*id)).count(), 4);
    assert_eq!((1..=10).filter(|id| s.contains(*id)).count(), 4);
}

#[test]
fn samples_need_a_known_number_of_cases() {
    assert_eq!(
        SamplePlan::new(2, 0, 1).err().as_deref(),
        Some("--oracle-sample-count must be greater than zero")
    );
    assert_eq!(known_scheduled_case_count(99), None);
    assert_eq!(
        SamplePlan::new(99, 5, 1).err().as_deref(),
        Some("streamed sampling does not have a cached case count for L=99")
    );
    let plan = SamplePlan::new(2, 5, 1).ok().unwrap();
    assert_eq!(
        (plan.len, plan.target, Some(plan.total_cases)),
        (2, 5, known_scheduled_case_count(2))
    );
}

#[test]
fn fixtures_are_looked_for() {
    let mut c = cli();
    assert_eq!(
        theory_trial_1_fixture_root(&c, true, true),
        "/oracle/theory-trial-1-fixtures"
    );
    assert_eq!(
        theory_trial_1_fixture_root(&c, false, true),
        "package-assets/theory-trial-1-fixtures"
    );
    assert_eq!(
        theory_trial_1_fixture_root(&c, false, false),
        "oracle-cache/theory-trial-1-fixtures"
    );
    c.oracle_fixtures = Some("f".to_string());
    assert_eq!(theory_trial_1_fixture_root(&c, true, true), "f");
    let bytes = theory_trial_1_fixture_bytes("file7");
    assert!(bytes.starts_with(b"FSX_THEORY_TRIAL_1_FIXTURE name=file7 hash="));
    assert!(!fixture_needs_writing(&Some(bytes), "file7"));
    assert!(fixture_needs_writing(&Some(vec![1]), "file7"));
    assert!(fixture_needs_writing(&None, "file7"));
    assert_eq!(
        tmp_file_path("/r/run-000001/case-000002"),
        "/tmp/fsx-oracle-run-000001-case-000002-C"
    );
    assert_eq!(
        tmp_file_path("/"),
        "/tmp/fsx-oracle-run-unknown-case-unknown-C"
    );
    assert!(tmp_files("/r/run-000001/case-000002").is_empty());
}

#[test]
fn failures_have_their_kinds() {
    let failure = |kind: FailureKind, message: &str, errno: Option<i32>| IoFailure {
        kind,
        message: message.to_string(),
        errno,
    };
    let kinds = [
        (FailureKind::NotFound, OracleErr::NotFound),
        (FailureKind::PermissionDenied, OracleErr::PermissionDenied),
        (FailureKind::AlreadyExists, OracleErr::AlreadyExists),
        (FailureKind::InvalidInput, OracleErr::InvalidInput),
        (FailureKind::InvalidData, OracleErr::InvalidData),
        (FailureKind::UnexpectedEof, OracleErr::UnexpectedEof),
        (FailureKind::WriteZero, OracleErr::WriteZero),
        (FailureKind::Interrupted, OracleErr::Interrupted),
        (FailureKind::Unsupported, OracleErr::Unsupported),
        (FailureKind::Other, OracleErr::Other),
    ];
    for (kind, err) in kinds {
        assert_eq!(errcode(&failure(kind, "x", Some(2)), false), err);
        assert_eq!(
            errcode(&failure(kind, "x", Some(9)), false),
            OracleErr::BadFd
        );
    }
    let e = failure(FailureKind::Other, "x", Some(8));
    assert_eq!(errcode(&e, false), OracleErr::Other);
    assert_eq!(errcode(&e, true), OracleErr::BadFd);
    let e = failure(FailureKind::Other, "Bad File Descriptor", None);
    assert_eq!(errcode(&e, false), OracleErr::BadFd);
}

fn shot(case_id: usize, file: FileId, data: Option<&[u8]>) -> FileSnapshot {
    FileSnapshot {
        case_id,
        file,
        rel: format!("case-{case_id:06}/A"),
        exists: data.is_some(),
        len: data.map_or(0, |d| d.len() as u64),
        hash: data.map_or(0, stable_hash),
    }
}

fn report(snapshots: Vec<FileSnapshot>) -> OracleReport {
    OracleReport {
        chain_len: 1,
        run: "run-000001".to_string(),
        records: Vec::new(),
        snapshots,
    }
}

#[test]
fn files_are_held_to_the_native_report() {
    let native = report(vec![
        shot(1, FileId::A, None),
        shot(2, FileId::A, None),
        shot(2, FileId::Fixture1, None),
        shot(3, FileId::B, None),
    ]);
    let wasix = report(vec![shot(2, FileId::A, None), shot(3, FileId::B, None)]);
    assert_eq!(external_snapshots(&native, &wasix), Ok(vec![1, 3]));
    let wasix = report(vec![shot(2, FileId::A, None), shot(4, FileId::B, None)]);
    assert_eq!(
        external_snapshots(&native, &wasix),
        Err("report snapshot count mismatch for requested shard: native=1, wasix=2".to_string())
    );
    assert_eq!(external_base("/d/report.bin"), Ok("/d".to_string()));
    assert_eq!(
        external_base("/"),
        Err("cannot infer external file root from report path /".to_string())
    );
}

#[test]
fn host_files_are_held_to_their_snapshots() {
    let found = |data: &[u8]| HostFile {
        exists: true,
        data: Ok(data.to_vec()),
    };
    let missing = || HostFile {
        exists: false,
        data: Err("gone".to_string()),
    };
    let present = shot(5, FileId::A, Some(b"abc"));
    let absent = shot(5, FileId::A, None);
    let verdict = |s: &FileSnapshot, h: &HostFile| verify_snapshot_file(s, "/h", h);
    assert_eq!(verdict(&present, &found(b"abc")), Ok(()));
    assert_eq!(verdict(&absent, &missing()), Ok(()));
    assert_eq!(
        verdict(&absent, &found(b"")),
        Err("case 5 file A expected absent, but host file exists at /h".to_string())
    );
    assert_eq!(
        verdict(&present, &missing()),
        Err("case 5 file A expected present, failed to read /h: gone".to_string())
    );
    assert_eq!(
        verdict(&present, &found(b"abcd")),
        Err("case 5 file A external len mismatch at /h: expected 3, actual 4".to_string())
    );
    assert_eq!(
        verdict(&present, &found(b"abd")),
        Err(format!(
            "case 5 file A external hash mismatch at /h: expected {:016x}, actual {:016x}",
            stable_hash(b"abc"),
            stable_hash(b"abd")
        ))
    );
}

#[test]
fn fixtures_are_prepared_once() {
    let mut dir: HashMap<String, Vec<u8>> = HashMap::new();
    dir.insert("file3".to_string(), vec![1, 2, 3]);
    dir.insert("file5".to_string(), theory_trial_1_fixture_bytes("file5"));
    dir.insert("other".to_string(), vec![9]);
    let prepare = |dir: &mut HashMap<String, Vec<u8>>| {
        let mut wrote = Vec::new();
        for index in 1..=THEORY_TRIAL_1_FIXTURE_COUNT {
            let name = theory_trial_1_fixture_name(index);
            if fixture_needs_writing(&dir.get(&name).cloned(), &name) {
                dir.insert(name.clone(), theory_trial_1_fixture_bytes(&name));
                wrote.push(index);
            }
        }
        wrote
    };
    let wrote = prepare(&mut dir);
    assert_eq!(wrote.len(), THEORY_TRIAL_1_FIXTURE_COUNT - 1);
    assert!(wrote.contains(&3) && !wrote.contains(&5));
    assert_eq!(dir["file3"], theory_trial_1_fixture_bytes("file3"));
    assert_eq!(dir["other"], vec![9]);
    for fixture in [FileId::Fixture1, FileId::Fixture2] {
        let path = fixture_path("f", 1, fixture);
        assert!(dir.contains_key(path.strip_prefix("f/").unwrap()));
    }
    assert!(prepare(&mut dir).is_empty());
}

#[test]
fn seeds_are_drawn_only_for_samples() {
    let failed = || Err("no random bytes".to_string());
    let mut c = cli();
    assert!(!seed_is_drawn(&c));
    assert!(oracle_plan_with_drawn(&c, "/r", failed()).is_ok());
    c.oracle_sample_count = Some(9);
    assert!(seed_is_drawn(&c));
    assert_eq!(
        oracle_plan_with_drawn(&c, "/r", failed()).err().as_deref(),
        Some("no random bytes")
    );
    assert!(OracleSelection::from_cli(&c).is_ok());
    c.oracle_case_start = Some(2);
    assert!(!seed_is_drawn(&c));
    assert_eq!(
        OracleSelection::from_cli_with_drawn(&c, failed()).err().as_deref(),
        Some("--oracle-sample-count cannot be combined with --case-start or --case-count")
    );
    c.oracle_case_start = None;
    c.seed = Some(3);
    assert!(!seed_is_drawn(&c));
    assert_eq!(
        OracleSelection::from_cli_with_drawn(&c, failed()),
        Ok(OracleSelection::Sample { count: 9, seed: 3 })
    );
    c.numops = Some(0);
    c.seed = None;
    assert_eq!(
        oracle_plan_with_drawn(&c, "/r", failed()).err().as_deref(),
        Some("oracle sequence length must be greater than zero")
    );
}
