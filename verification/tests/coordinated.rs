use std::collections::HashMap;

use fsx_wasix::cli::Cli;
use fsx_wasix::coordinator::{next_kind, prepare_run_root, round_rng, Coordinator};
use fsx_wasix::expected::ExpectedWorld;
use fsx_wasix::fsx::{Config, Opsize};
use fsx_wasix::manifest::{
    found_file, manifest_to_verify, parse_manifest_line, run_start, verify_manifest, RunStart,
};
use fsx_wasix::scenario::{rounds, scenario_kind, Mark, Move, RunConfig, ScenarioKind};
use fsx_wasix::script::Script;
use fsx_wasix::worker::{CallOutcome, FileCall, LogSink, Worker, WorkerCommand, WorkerReply};
use fsx_wasix::world::{collect_files, compare_bytes, FoundEntry, OpenFlags, RunError};
use rand::{Rng, SeedableRng};
use rand_xorshift::XorShiftRng;

fn cli(scenario: &str, workers: usize) -> Cli {
    Cli {
        opnum: 1,
        config: None,
        monitor: None,
        numops: Some(3),
        artifacts_dir: None,
        seed: Some(5),
        threads: Some(workers),
        server: None,
        orchestrated: true,
        oracle: false,
        oracle_prepare_fixtures: None,
        oracle_fixtures: None,
        oracle_output: None,
        oracle_expected: None,
        oracle_case_start: None,
        oracle_case_count: None,
        oracle_sample_count: None,
        oracle_verify_files: None,
        oracle_catalog: false,
        oracle_catalog_key: false,
        oracle_catalog_syscalls: false,
        scenario: scenario.to_string(),
        files: 2,
        handles: 3,
        parallelism: 1,
        verify_every: Some(2),
        manifest: None,
        fname: Some("/run/root".to_string()),
        inject: None,
    }
}

fn config() -> Config {
    Config {
        flen: None,
        nosizechecks: false,
        opsize: Opsize::default(),
    }
}

struct OpenFile {
    inode: usize,
    pos: usize,
    append: bool,
}

/// Files in memory, with the workers that use them.
#[derive(Default)]
struct Disk {
    names: HashMap<String, usize>,
    inodes: Vec<Vec<u8>>,
    open: HashMap<(usize, u64), OpenFile>,
    stderr: Vec<u8>,
}

fn done(pos: u64, data: Vec<u8>) -> CallOutcome {
    CallOutcome::Done {
        raw_fd: Some(7),
        pos,
        data,
    }
}

fn not_found() -> CallOutcome {
    CallOutcome::Failed {
        message: "No such file or directory (os error 2)".to_string(),
        not_found: true,
    }
}

impl Disk {
    fn read(&self, path: &str) -> Result<Vec<u8>, String> {
        match self.names.get(path) {
            Some(i) => Ok(self.inodes[*i].clone()),
            None => Err("No such file or directory (os error 2)".to_string()),
        }
    }

    fn perform(&mut self, worker: usize, call: FileCall) -> CallOutcome {
        match call {
            FileCall::Open { path, flags, .. } => {
                let inode = match self.names.get(&path) {
                    Some(i) => *i,
                    None if flags.create => {
                        self.inodes.push(Vec::new());
                        self.names.insert(path, self.inodes.len() - 1);
                        self.inodes.len() - 1
                    }
                    None => return not_found(),
                };
                if flags.truncate {
                    self.inodes[inode].clear();
                }
                done(0, Vec::new())
            }
            FileCall::Close { handle } => {
                self.open.remove(&(worker, handle));
                done(0, Vec::new())
            }
            FileCall::Read { handle, at, size } => {
                let file = self.open.get_mut(&(worker, handle)).unwrap();
                if let Some(at) = at {
                    file.pos = at as usize;
                }
                let data = &self.inodes[file.inode];
                let end = data.len().min(file.pos + size);
                let out = data[file.pos.min(end)..end].to_vec();
                file.pos += out.len();
                done(0, out)
            }
            FileCall::Write { handle, at, data } => {
                let file = self.open.get_mut(&(worker, handle)).unwrap();
                if let Some(at) = at {
                    file.pos = at as usize;
                }
                let all = &mut self.inodes[file.inode];
                if file.append {
                    file.pos = all.len();
                }
                if all.len() < file.pos + data.len() {
                    all.resize(file.pos + data.len(), 0);
                }
                all[file.pos..file.pos + data.len()].copy_from_slice(&data);
                file.pos += data.len();
                done(0, Vec::new())
            }
            FileCall::Seek { handle, offset } => {
                self.open.get_mut(&(worker, handle)).unwrap().pos = offset as usize;
                done(offset, Vec::new())
            }
            FileCall::Sync { .. } => done(0, Vec::new()),
            FileCall::SetLen { handle, len } => {
                let file = &self.open[&(worker, handle)];
                self.inodes[file.inode].resize(len as usize, 0);
                done(0, Vec::new())
            }
            FileCall::Remove { path } => match self.names.remove(&path) {
                Some(_) => done(0, Vec::new()),
                None => not_found(),
            },
            FileCall::Rename { from, to } => match self.names.remove(&from) {
                Some(i) => {
                    self.names.insert(to, i);
                    done(0, Vec::new())
                }
                None => not_found(),
            },
            FileCall::Stdout { .. } => done(0, Vec::new()),
            FileCall::Stderr { data } => {
                self.stderr.extend_from_slice(&data);
                done(0, Vec::new())
            }
            FileCall::ReadAll { path } => match self.read(&path) {
                Ok(data) => done(0, data),
                Err(_) => not_found(),
            },
        }
    }
}

struct Run {
    disk: Disk,
    workers: Vec<Worker>,
}

impl Run {
    fn new(workers: usize) -> Run {
        Run {
            disk: Disk::default(),
            workers: (1..=workers).map(Worker::new).collect(),
        }
    }

    fn execute(&mut self, index: usize, cmd: WorkerCommand) -> WorkerReply {
        let worker = &mut self.workers[index];
        let id = worker.id;
        let outcome = match worker.plan(&cmd) {
            Some(FileCall::Open { dir, path, flags }) => {
                let handle = match &cmd {
                    WorkerCommand::Open { handle, .. } => *handle,
                    _ => panic!("no open"),
                };
                let outcome = self.disk.perform(
                    id,
                    FileCall::Open {
                        dir,
                        path: path.clone(),
                        flags,
                    },
                );
                if let CallOutcome::Done { .. } = outcome {
                    let file = OpenFile {
                        inode: self.disk.names[&path],
                        pos: 0,
                        append: flags.append,
                    };
                    self.disk.open.insert((id, handle), file);
                }
                outcome
            }
            Some(call) => self.disk.perform(id, call),
            None => done(0, Vec::new()),
        };
        assert!(worker.can_execute(&cmd, &outcome));
        worker.execute(cmd, outcome)
    }

    fn verify_all(&self, c: &mut Coordinator) -> Result<(), RunError> {
        let reads = c
            .world
            .files
            .iter()
            .map(|f| self.disk.read(&f.path))
            .collect::<Vec<_>>();
        let mut found = self.disk.names.keys().cloned().collect::<Vec<_>>();
        found.sort();
        c.world.verify_all_fresh(&reads, Ok(found))
    }

    fn play(&mut self, c: &mut Coordinator, m: &Move) -> Result<(), RunError> {
        let commands = c.begin(m)?;
        let mut replies = Vec::new();
        for (worker, cmd) in commands {
            let index = c.worker_idx(worker);
            replies.push(self.execute(index, cmd));
        }
        assert!(c.can_finish(m));
        match m {
            Move::AppendTogether { count } => {
                let path = c.append_path()?;
                let read = self.disk.read(&path);
                c.finish_together(*count, &replies, read)?;
            }
            Move::VerifyAll => {}
            _ => c.finish(m, &replies[0])?,
        }
        if c.verify_due(m) {
            self.verify_all(c)?;
        }
        Ok(())
    }

    fn scenario(&mut self, c: &mut Coordinator) -> Result<(), RunError> {
        assert!(c.cfg.fits());
        let mut script = Script::begin(c)?;
        while let Some(moves) = script.next_round(&c.cfg) {
            for m in &moves {
                self.play(c, m)?;
            }
        }
        script.end(c);
        self.verify_all(c)
    }
}

fn run(options: &Cli) -> (Coordinator, Run, Result<(), RunError>) {
    let cfg = RunConfig::from_cli(options, &config(), None).unwrap();
    let mut run = Run::new(cfg.workers);
    let mut c = Coordinator::new(cfg);
    let r = run.scenario(&mut c);
    (c, run, r)
}

#[test]
fn every_scenario_holds_on_sound_files() {
    for name in [
        "random",
        "shared-inode",
        "same-file-independent-offsets",
        "same-file-overlapping-writes",
        "stronger-rights",
        "fd-reuse",
        "append",
        "unlink-recreate",
        "rename-open-handle",
        "wordpress-like",
    ] {
        for workers in [1, 2, 3] {
            for parallelism in [1, 2] {
                let mut options = cli(name, workers);
                options.parallelism = parallelism;
                let (c, run, r) = run(&options);
                if let Err(e) = r {
                    panic!("{name} {workers} {parallelism}: {}", e.text());
                }
                assert!(c.steps > 0);
                assert!(c.world.verified_files > 0);
                assert!(c.world.handles.is_empty());
                assert_eq!(c.world.files.len(), run.disk.names.len());
                assert!(c.world.command_log.len() <= 512);
            }
        }
    }
}

#[test]
fn injected_errors_are_found() {
    let (c, _, r) = run(&cli("inject-wrong-byte", 2));
    let e = r.unwrap_err();
    assert_eq!(e.category, "wrong-bytes");
    assert_eq!(
        e.message,
        "/run/root/file-0.dat mismatch at offset 0: expected 0x46, got 0xb9"
    );
    assert_eq!(c.cfg.inject, Some(3));
    let report = c.world.report(&e, "inject-wrong-byte", 5);
    assert!(report.starts_with(
        "category=wrong-bytes\nscenario=inject-wrong-byte\nseed=5\nmessage=/run/root/file-0.dat"
    ));
    let text = e.with_report(report).text();
    assert!(text.contains("LOG DUMP\n1: worker=1 cmd=Open { step: 1, handle: 1, path: \"/run/root/file-0.dat\", flags: OpenFlags { read: true, write: true, append: false, truncate: false, create: true, create_new: false } }\n"));
}

#[test]
fn unknown_scenarios_are_refused() {
    let (_, _, r) = run(&cli("nonsense", 1));
    assert_eq!(r.unwrap_err().text(), "syscall-error: unknown scenario nonsense");
}

#[test]
fn settings_have_lower_limits() {
    let mut options = cli("random", 1);
    options.threads = None;
    options.numops = Some(0);
    options.seed = None;
    let mut conf = config();
    conf.opsize = Opsize {
        min: 100,
        max: 10,
        align: None,
    };
    let c = RunConfig::from_cli(&options, &conf, Some(4)).unwrap();
    assert_eq!((c.workers, c.numops, c.seed, c.flen), (4, 1, 1, 262_144));
    assert_eq!((c.opsize_min, c.opsize_max), (100, 100));
    options.fname = None;
    assert_eq!(
        RunConfig::from_cli(&options, &conf, None).err().unwrap().text(),
        "syscall-error: run root is required"
    );
}

#[test]
fn markers_repeat_their_text() {
    let c = RunConfig::from_cli(&cli("random", 2), &config(), None).unwrap();
    let mark = Mark {
        worker: 2,
        handle: 30,
        path_id: 3,
        min_size: 96,
    };
    let text = "FSXMARK step=9 worker=2 handle=30 path=3 seed=5 ";
    let bytes = c.marker(9, mark);
    assert_eq!(bytes.len(), 96);
    assert_eq!(bytes, text.repeat(3).as_bytes()[..96]);
}

#[test]
fn broad_roots_are_refused() {
    for root in ["/", "/tmp", "/data", "/work"] {
        assert_eq!(
            prepare_run_root(root).unwrap_err().text(),
            format!(
                "syscall-error: refusing to clean broad run root {root}; pass a child directory instead"
            )
        );
    }
    assert!(prepare_run_root("/tmp/x").is_ok());
}

#[test]
fn bytes_are_compared() {
    assert!(compare_bytes("f", b"abc", b"abc").is_ok());
    assert_eq!(
        compare_bytes("f", b"abc", b"abcd").unwrap_err().text(),
        "wrong-size: f expected 3 bytes, got 4 bytes"
    );
    assert_eq!(
        compare_bytes("f", b"abc", b"ab\x05").unwrap_err().text(),
        "wrong-bytes: f mismatch at offset 2: expected 0x63, got 0x05"
    );
}

#[test]
fn files_of_a_walk_are_collected() {
    let entry = |path: &str, is_dir: bool, is_file: bool| FoundEntry {
        path: path.to_string(),
        is_dir,
        is_file,
    };
    let walk = vec![
        entry("/r/a", true, false),
        entry("/r/a/x", false, true),
        entry("/r/link", false, false),
        entry("/r/b", false, true),
    ];
    assert_eq!(collect_files(Some(&walk)), vec!["/r/a/x", "/r/b"]);
    assert!(collect_files(None).is_empty());
}

#[test]
fn worlds_follow_their_files() {
    let mut w = ExpectedWorld::new("/r".to_string());
    w.open(1, 1, "/r/b".to_string(), OpenFlags::read_write_create());
    w.open(1, 2, "/r/a".to_string(), OpenFlags::read_write_create());
    assert_eq!(w.handle_path(1, 1).unwrap(), "/r/b");
    assert_eq!(
        w.handle_path(2, 1).unwrap_err().text(),
        "syscall-error: unknown handle 1"
    );
    w.write_at(1, 1, 3, b"xy").unwrap();
    w.append(1, 1, b"z").unwrap();
    w.truncate(1, 2, 2).unwrap();
    w.set_pos(1, 1, 9);
    assert_eq!(w.handles.iter().find(|h| h.handle == 1).unwrap().pos, 9);
    assert_eq!(w.files[0].path, "/r/a");
    assert_eq!(w.files[0].data, [0, 0]);
    assert_eq!(w.files[1].data, b"\0\0\0xyz");
    assert!(w.verify_path("/r//b", b"\0\0\0xyz").is_ok());
    assert_eq!(w.verified_files, 1);
    assert_eq!(
        w.verify_path("/r/c", b"").unwrap_err().text(),
        "unexpected-file: /r/c exists but is not modeled"
    );
    w.rename("/r/b", "/r/0");
    assert_eq!(w.files[0].path, "/r/0");
    assert_eq!(w.handle_path(1, 1).unwrap(), "/r/0");
    w.unlink("/r/a");
    assert_eq!(w.files.len(), 1);
    assert!(w.handle_path(1, 2).is_ok());
    w.close(1, 2);
    assert!(w.append(1, 2, b"x").is_err());
    w.open(1, 3, "/r/0".to_string(), OpenFlags::read_write_truncate());
    assert!(w.files[0].data.is_empty());
    let reads = vec![Ok(vec![1])];
    assert_eq!(
        w.verify_all_fresh(&reads, Ok(vec![])).unwrap_err().text(),
        "wrong-size: /r/0 expected 0 bytes, got 1 bytes"
    );
    let reads = vec![Err("gone".to_string())];
    assert_eq!(
        w.verify_all_fresh(&reads, Ok(vec![])).unwrap_err().text(),
        "missing-file: failed to read /r/0: gone"
    );
    let reads = vec![Ok(vec![])];
    let found = vec!["/r/0".to_string(), "/r/9".to_string()];
    assert_eq!(
        w.verify_all_fresh(&reads, Ok(found)).unwrap_err().text(),
        "unexpected-file: unmodeled file under run root: /r/9"
    );
}

#[test]
fn logs_keep_the_latest_commands() {
    let mut w = ExpectedWorld::new("/r".to_string());
    for i in 0..600 {
        w.log(format!("line {i}"));
    }
    assert_eq!(w.command_log.len(), 512);
    assert_eq!(w.command_log[0], "line 88");
    assert_eq!(w.command_log[511], "line 599");
}

#[test]
fn manifests_are_verified() {
    let mut w = ExpectedWorld::new("/r".to_string());
    w.open(1, 1, "/r/b".to_string(), OpenFlags::read_write_create());
    w.append(1, 1, b"hello").unwrap();
    w.open(1, 2, "/r/sub/a".to_string(), OpenFlags::read_write_create());
    assert_eq!(
        w.manifest_with(&vec![0xab, 1]),
        "b\t5\t00000000000000ab\nsub/a\t0\t0000000000000001\n"
    );
    let text = w.write_manifest();
    let found = vec![Ok(found_file(b"hello")), Ok(found_file(b""))];
    assert!(verify_manifest("/r", &text, &found).is_ok());
    let found = vec![Ok(found_file(b"hellO")), Ok(found_file(b""))];
    assert_eq!(
        verify_manifest("/r", &text, &found).unwrap_err().text(),
        "wrong-bytes: manifest mismatch for /r/b"
    );
    let found = vec![Ok(found_file(b"hello")), Err("gone".to_string())];
    assert_eq!(
        verify_manifest("/r", &text, &found).unwrap_err().text(),
        "missing-file: failed to read /r/sub/a: gone"
    );
    for (line, e) in [
        ("a\t1", "wrong-bytes: invalid manifest line 4"),
        (
            "a\tx\t0",
            "wrong-bytes: invalid manifest length: invalid digit found in string",
        ),
        (
            "a\t1\t",
            "wrong-bytes: invalid manifest hash: cannot parse integer from empty string",
        ),
    ] {
        assert_eq!(parse_manifest_line("/r", 3, line).err().unwrap().text(), e);
    }
    let mut c = RunConfig::from_cli(&cli("verify-manifest", 1), &config(), None).unwrap();
    assert_eq!(
        manifest_to_verify(&c).unwrap_err().text(),
        "missing-file: verify-manifest requires --manifest"
    );
    c.manifest = Some("/m".to_string());
    assert_eq!(manifest_to_verify(&c).unwrap(), "/m");
}

#[test]
fn workers_refuse_unknown_handles() {
    let mut run = Run::new(1);
    let commands = |step: u64| {
        vec![
            WorkerCommand::Close { step, handle: 4 },
            WorkerCommand::ReadAt {
                step,
                handle: 4,
                offset: 0,
                size: 1,
            },
            WorkerCommand::Fsync { step, handle: 4 },
            WorkerCommand::WriteSeq {
                step,
                handle: 4,
                data: vec![1],
            },
        ]
    };
    for cmd in commands(9) {
        let reply = run.execute(0, cmd);
        assert_eq!(reply.step, 9);
        assert_eq!(reply.error.as_deref(), Some("unknown handle 4"));
    }
}

#[test]
fn workers_carry_out_commands() {
    let mut run = Run::new(1);
    let flags = OpenFlags::read_write_create();
    let reply = run.execute(
        0,
        WorkerCommand::Open {
            step: 1,
            handle: 4,
            path: "/f".to_string(),
            flags,
        },
    );
    assert_eq!((reply.worker, reply.raw_fd, reply.error), (1, Some(7), None));
    let reply = run.execute(
        0,
        WorkerCommand::WriteSeq {
            step: 2,
            handle: 4,
            data: b"hello".to_vec(),
        },
    );
    assert_eq!(reply.bytes, 5);
    assert_eq!(run.workers[0].handles[0].pos, 5);
    run.execute(
        0,
        WorkerCommand::Seek {
            step: 3,
            handle: 4,
            offset: 1,
        },
    );
    let reply = run.execute(
        0,
        WorkerCommand::ReadSeq {
            step: 4,
            handle: 4,
            size: 3,
        },
    );
    assert_eq!(reply.data, b"ell");
    assert_eq!(run.workers[0].handles[0].pos, 4);
    let reply = run.execute(
        0,
        WorkerCommand::WriteLog {
            step: 5,
            data: b"log".to_vec(),
        },
    );
    assert_eq!((reply.raw_fd, reply.bytes), (None, 3));
    assert_eq!(run.disk.stderr, b"log");
    run.execute(
        0,
        WorkerCommand::SwitchLogSink {
            step: 6,
            sink: LogSink::Handle(1, 4),
        },
    );
    run.execute(
        0,
        WorkerCommand::WriteLog {
            step: 7,
            data: b"LO".to_vec(),
        },
    );
    run.execute(
        0,
        WorkerCommand::Truncate {
            step: 8,
            handle: 4,
            len: 7,
        },
    );
    let reply = run.execute(
        0,
        WorkerCommand::VerifyPath {
            step: 9,
            path: "/f".to_string(),
        },
    );
    assert_eq!(reply.data, b"hellLO\0");
    let reply = run.execute(
        0,
        WorkerCommand::Unlink {
            step: 10,
            path: "/none".to_string(),
        },
    );
    assert_eq!(reply.error, None);
    let reply = run.execute(
        0,
        WorkerCommand::Rename {
            step: 11,
            from: "/none".to_string(),
            to: "/x".to_string(),
        },
    );
    assert!(reply.error.is_some());
    let reply = run.execute(0, WorkerCommand::Stop { step: 12 });
    assert_eq!((reply.step, reply.bytes), (12, 0));
}

#[test]
fn commands_show_their_fields() {
    let path = "/a \"b\"".to_string();
    let shown = std::path::PathBuf::from(&path);
    assert_eq!(
        WorkerCommand::Rename {
            step: 1,
            from: path.clone(),
            to: "/c".to_string()
        }
        .debug(),
        format!("Rename {{ step: 1, from: {shown:?}, to: \"/c\" }}")
    );
    assert_eq!(
        WorkerCommand::WriteAt {
            step: 2,
            handle: 3,
            offset: 4,
            data: vec![1, 2]
        }
        .debug(),
        "WriteAt { step: 2, handle: 3, offset: 4, data: [1, 2] }"
    );
    assert_eq!(
        WorkerCommand::SwitchLogSink {
            step: 5,
            sink: LogSink::Handle(1, 63)
        }
        .debug(),
        format!(
            "SwitchLogSink {{ step: 5, sink: {:?} }}",
            LogSink::Handle(1, 63)
        )
    );
    assert_eq!(WorkerCommand::Stop { step: 6 }.debug(), "Stop { step: 6 }");
    assert_eq!(WorkerCommand::Stop { step: 6 }.step(), 6);
}

#[test]
fn rounds_follow_the_seed() {
    let kinds = |seed: u64| {
        let mut options = cli("random", 2);
        options.seed = Some(seed);
        options.numops = Some(40);
        let cfg = RunConfig::from_cli(&options, &config(), None).unwrap();
        let mut c = Coordinator::new(cfg);
        let mut script = Script::begin(&mut c).unwrap();
        let mut lens = Vec::new();
        while let Some(moves) = script.next_round(&c.cfg) {
            lens.push(moves.len());
        }
        assert_eq!(lens.len(), 40);
        lens
    };
    assert_eq!(kinds(1), kinds(1));
    assert_ne!(kinds(1), kinds(2));
    let kind = scenario_kind("rename-open-handle").unwrap();
    assert_eq!(kind, ScenarioKind::Rename);
    assert_eq!(rounds(kind, 40), 1);
    assert_eq!(rounds(ScenarioKind::Append, 40), 40);
}

#[test]
fn kinds_are_drawn_from_the_generator() {
    let mut rng = round_rng(12);
    let mut theirs = XorShiftRng::seed_from_u64(12);
    for _ in 0..100 {
        let kind = match theirs.gen_range(0..6) {
            0 => ScenarioKind::SharedInode,
            1 => ScenarioKind::FdReuse,
            2 => ScenarioKind::Append,
            3 => ScenarioKind::UnlinkRecreate,
            4 => ScenarioKind::StrongerRights,
            _ => ScenarioKind::WordpressLike,
        };
        assert_eq!(next_kind(&mut rng), kind);
    }
}

#[test]
fn only_scenarios_clear_their_root() {
    let mut c = RunConfig::from_cli(&cli("verify-manifest", 1), &config(), None).unwrap();
    assert_eq!(
        run_start(&c).err().unwrap().text(),
        "missing-file: verify-manifest requires --manifest"
    );
    c.manifest = Some("/m".to_string());
    for root in ["/r", "/tmp"] {
        c.root = root.to_string();
        match run_start(&c).ok().unwrap() {
            RunStart::VerifyManifest { manifest } => assert_eq!(manifest, "/m"),
            RunStart::Clear => panic!("the files would be gone"),
        }
    }
    let mut c = RunConfig::from_cli(&cli("append", 1), &config(), None).unwrap();
    c.root = "/r".to_string();
    assert!(matches!(run_start(&c), Ok(RunStart::Clear)));
    c.root = "/tmp".to_string();
    assert_eq!(
        run_start(&c).err().unwrap().text(),
        "syscall-error: refusing to clean broad run root /tmp; pass a child directory instead"
    );
}
