use fsx_wasix::cli::{parse_monitor, Cli};
use fsx_wasix::fsx::{
    default_flen, default_opsize_max, draw_step, field_width, run_seed, Action, Config, Draws,
    Exerciser, LogLevel, Opsize,
};
use fsx_wasix::fsx_run::{
    panic_message, run_workers, start_failure, thread_target, worker_count, WorkerEnd,
};
use fsx_wasix::oplog::{LogEntry, Op};
use rand::{Rng, RngCore, SeedableRng};
use rand_xorshift::XorShiftRng;

fn cli() -> Cli {
    Cli {
        opnum: 1,
        config: None,
        monitor: None,
        numops: None,
        artifacts_dir: None,
        seed: None,
        threads: None,
        server: None,
        orchestrated: false,
        oracle: false,
        oracle_prepare_fixtures: None,
        oracle_fixtures: None,
        oracle_output: None,
        oracle_expected: None,
        oracle_case_start: None,
        oracle_case_count: None,
        oracle_sample_count: None,
        oracle_verify_files: None,
        oracle_catalog: false,
        oracle_catalog_key: false,
        oracle_catalog_syscalls: false,
        scenario: "shared-inode".to_string(),
        files: 2,
        handles: 8,
        parallelism: 1,
        verify_every: None,
        manifest: None,
        fname: Some("/tmp/dir/fsxfile".to_string()),
        inject: None,
    }
}

fn config(flen: u32) -> Config {
    Config {
        flen: Some(flen),
        nosizechecks: false,
        opsize: Opsize {
            min: 1,
            max: 64,
            align: None,
        },
    }
}

const OPS: [Op; 8] = [
    Op::Write,
    Op::Read,
    Op::MapWrite,
    Op::Truncate,
    Op::MapRead,
    Op::CloseOpen,
    Op::Fsync,
    Op::Fdatasync,
];

/// Does to `file` what a step asks for, and checks what comes back.
fn perform(ex: &Exerciser, file: &mut Vec<u8>, action: Action) {
    match action {
        Action::Nothing | Action::CloseOpen | Action::Fsync | Action::Fdatasync => {}
        Action::Read { offset, size } => {
            let start = offset as usize;
            let buf = file[start..start + size].to_vec();
            assert!(ex.can_check(&buf, offset));
            assert!(ex.doread(&buf, offset, size).is_ok());
        }
        Action::Write { offset, bytes } => {
            let start = offset as usize;
            if file.len() < start + bytes.len() {
                file.resize(start + bytes.len(), 0);
            }
            file[start..start + bytes.len()].copy_from_slice(&bytes);
            assert!(ex.dowrite(bytes.len(), bytes.len()).is_ok());
        }
        Action::SetLen { len } => file.resize(len as usize, 0),
    }
}

#[test]
fn fields_are_wide_enough() {
    assert_eq!(field_width(0x40000, true), 7);
    assert_eq!(field_width(0xffff, true), 6);
    assert_eq!(field_width(0x10000, true), 7);
    assert_eq!(field_width(0, true), 3);
    assert_eq!(field_width(0, false), 1);
    assert_eq!(field_width(9, false), 1);
    assert_eq!(field_width(10, false), 2);
    assert_eq!(field_width(999, false), 3);
    assert_eq!(field_width(1000, false), 4);
    assert_eq!(field_width(999_999, false), 6);
    assert_eq!(field_width(usize::MAX, true), format!("{:#x}", usize::MAX).len());
    assert_eq!(field_width(usize::MAX, false), format!("{}", usize::MAX).len());
}

#[test]
fn configurations_are_checked() {
    assert_eq!(default_flen(), 262_144);
    assert_eq!(default_opsize_max(), 65_536);
    let opsize = Opsize::default();
    assert_eq!((opsize.min, opsize.max, opsize.align), (0, 65536, Some(1)));
    let mut c = config(100);
    assert_eq!(c.validate_result(), Ok(()));
    c.opsize.align = Some(65);
    assert_eq!(
        c.validate_result(),
        Err("operation alignment must be no greater than maximum operation size".to_string())
    );
    c.opsize.min = 65;
    assert_eq!(
        c.validate_result(),
        Err("Minimum operation size must be no greater than maximum".to_string())
    );
    c.opsize.max = 0;
    assert_eq!(
        c.validate_result(),
        Err("Maximum operation size must be greater than zero".to_string())
    );
    c.flen = Some(0);
    assert_eq!(
        c.validate_result(),
        Err("file length must be greater than zero".to_string())
    );
}

#[test]
fn a_sound_file_passes_all_checks() {
    let (mut ex, mut rng) = Exerciser::new(&cli(), &config(500), 11);
    let mut file: Vec<u8> = Vec::new();
    for i in 0..3000usize {
        let op = OPS[(i * i + i / 3) % OPS.len()];
        let draws = draw_step(&mut rng, ex.opsize, op);
        assert!((1..=64).contains(&draws.size));
        let step = ex.step(op, draws);
        perform(&ex, &mut file, step.action);
        assert!(ex.size_check_due());
        assert!(ex.check_size(file.len() as u64).is_ok());
        assert_eq!(file, ex.good_buf[..file.len()]);
        assert_eq!(ex.steps, i as u64 + 1);
    }
    assert!(!ex.finished());
}

#[test]
fn runs_are_reproducible() {
    let make = |name: &str| {
        let mut asked = cli();
        asked.fname = Some(name.to_string());
        let (mut ex, mut rng) = Exerciser::new(&asked, &config(500), 5);
        for i in 0..200usize {
            let op = OPS[i % OPS.len()];
            let draws = draw_step(&mut rng, ex.opsize, op);
            ex.step(op, draws);
        }
        (ex.good_buf.clone(), ex.file_size, ex.dump_logfile())
    };
    assert_eq!(make("file"), make("file"));
    assert_eq!(make("file"), make("other/name"));
}

#[test]
fn the_seed_gives_the_original_bytes() {
    let (ex, mut rng) = Exerciser::new(&cli(), &config(100), 42);
    let mut theirs = XorShiftRng::seed_from_u64(42);
    let mut bytes = vec![0u8; 100];
    theirs.fill_bytes(&mut bytes);
    assert_eq!(ex.original_buf, bytes);
    assert_eq!(ex.good_buf, vec![0u8; 100]);
    assert_eq!(rng.next_u64(), theirs.next_u64());
    let mut asked = cli();
    asked.seed = Some(9);
    assert_eq!(run_seed(&asked), Ok(9));
    asked.seed = None;
    assert!(run_seed(&asked).is_ok());
    assert_ne!(run_seed(&asked), run_seed(&asked));
}

#[test]
fn operations_are_cut_to_the_file() {
    let mut conf = config(100);
    conf.opsize.align = Some(8);
    let (mut ex, _) = Exerciser::new(&cli(), &conf, 1);
    let draws = |size: usize, offset: u32, length: u32| Draws {
        size,
        offset,
        length,
    };
    let step = ex.step(Op::Write, draws(30, 77, 0));
    match step.action {
        Action::Write { offset, bytes } => {
            assert_eq!((offset, bytes.len()), (0, 24));
            assert_eq!(bytes[0], 1);
            assert_eq!(bytes[1], 1u8.wrapping_add(ex.original_buf[1]));
        }
        _ => panic!("no write"),
    }
    assert_eq!(
        step.line.unwrap().1,
        "     1 write     0x0 .. 0x17 (0x18 bytes)"
    );
    let step = ex.step(Op::Read, draws(64, 21, 0));
    match step.action {
        Action::Read { offset, size } => assert_eq!((offset, size), (16, 8)),
        _ => panic!("no read"),
    }
    let step = ex.step(Op::Truncate, draws(1, 1, 150));
    assert!(matches!(step.action, Action::SetLen { len: 50 }));
    assert_eq!(step.line.unwrap().1, "     3 truncate 0x18 => 0x32");
    assert_eq!(ex.file_size, 50);
    assert!(ex.good_buf[24..50].iter().all(|b| *b == 0));
    let step = ex.step(Op::MapWrite, draws(3, 10, 0));
    assert!(matches!(step.action, Action::Nothing));
    let (level, line) = step.line.unwrap();
    assert_eq!(level, LogLevel::Debug);
    assert_eq!(line, "     4 skipping zero size write");
    let step = ex.step(Op::Fdatasync, draws(3, 10, 0));
    assert!(matches!(step.action, Action::Fdatasync));
    assert_eq!(step.line.unwrap().1, "     5 fdatasync");
}

#[test]
fn monitored_bytes_are_loud() {
    let mut options = cli();
    options.monitor = Some((10, 20));
    let (ex, _) = Exerciser::new(&options, &config(100), 1);
    assert_eq!(ex.loglevel(0, None, 10), LogLevel::Info);
    assert_eq!(ex.loglevel(0, None, 11), LogLevel::Warn);
    assert_eq!(ex.loglevel(20, None, 1), LogLevel::Warn);
    assert_eq!(ex.loglevel(21, None, 5), LogLevel::Info);
    assert_eq!(ex.loglevel(21, Some(12), 5), LogLevel::Warn);
    assert_eq!(ex.loglevel(21, Some(30), 5), LogLevel::Info);
}

#[test]
fn wrong_bytes_are_reported() {
    let (mut ex, _) = Exerciser::new(&cli(), &config(0x1000), 3);
    ex.step(
        Op::Write,
        Draws {
            size: 16,
            offset: 0,
            length: 0,
        },
    );
    let mut buf = ex.good_buf[0..16].to_vec();
    assert!(ex.check_buffers(&buf, 0).is_ok());
    buf[4] = 0x7f;
    buf[6] = 0x7f;
    let good = ex.good_buf[4];
    let failure = ex.check_buffers(&buf, 0).unwrap_err();
    assert_eq!(
        failure.lines,
        vec![
            "miscompare: offset= 0x0, size = 0x10".to_string(),
            "OFFSET GOOD  BAD  RANGE".to_string(),
            format!("   0x4 {good:#04x} 0x7f  0x2"),
            "Step# (mod 256) for a misdirected write may be 127".to_string(),
            "miscompare".to_string(),
            "Using seed 3".to_string(),
            "LOG DUMP".to_string(),
            "     1 WRITE       0x0 =>   0x10 (0x10 bytes) EXTEND".to_string(),
        ]
    );
    assert_eq!(failure.good_file, "/tmp/dir/fsxfile.fsxgood");
    assert_eq!(failure.error.message, "miscompare");
    assert_eq!(
        failure.error.report,
        "Using seed 3\nLOG DUMP\n1: Write(0, 0, 16)\n"
    );
    assert_eq!(
        failure.error.text(),
        "miscompare\nUsing seed 3\nLOG DUMP\n1: Write(0, 0, 16)\n"
    );
    let mut buf = ex.good_buf[0..16].to_vec();
    buf[15] ^= 1;
    assert!(!ex.can_check(&buf, 0));
    buf[15] ^= 1;
    buf[14] = 0;
    let lines = ex.check_buffers(&buf, 0).unwrap_err().lines;
    assert_eq!(
        lines[3],
        "Step# for the bad data is unknown; check HOLE and EXTEND ops"
    );
}

#[test]
fn short_transfers_and_sizes_are_reported() {
    let mut options = cli();
    options.artifacts_dir = Some("/art".to_string());
    let (mut ex, _) = Exerciser::new(&options, &config(0x100), 3);
    ex.step(
        Op::Write,
        Draws {
            size: 16,
            offset: 0,
            length: 0,
        },
    );
    let buf = vec![0u8; 8];
    let e = ex.doread(&buf, 0, 3).unwrap_err();
    assert_eq!(e.lines[0], "short read: 0x3 bytes instead of 0x8");
    assert_eq!(e.error.message, "short read");
    assert_eq!(e.good_file, "/art/fsxfile.fsxgood");
    let e = ex.dowrite(8, 10).unwrap_err();
    assert_eq!(e.lines[0], "short write: 0xa bytes instead of 0x8");
    assert_eq!(e.error.message, "short write");
    let e = ex.writefileimage(1).unwrap_err();
    assert_eq!(e.lines[0], "short write: 0x1 bytes instead of 0x10");
    assert_eq!(e.error.message, "short write while writing file image");
    assert!(ex.writefileimage(16).is_ok());
    let e = ex.check_size(17).unwrap_err();
    assert_eq!(
        e.lines[0],
        "Size error: expected 0x10 but found 0x11 by stat"
    );
    assert_eq!(e.error.message, "size check failed");
    ex.nosizechecks = true;
    assert!(ex.check_size(17).is_ok());
    assert!(!ex.size_check_due());
}

#[test]
fn simulated_and_injected_steps_leave_the_file_alone() {
    let mut options = cli();
    options.opnum = 3;
    options.inject = Some(4);
    options.numops = Some(4);
    let (mut ex, _) = Exerciser::new(&options, &config(0x100), 3);
    let draws = Draws {
        size: 16,
        offset: 0,
        length: 0,
    };
    for _ in 0..2 {
        assert!(ex.file_image().is_none());
        assert!(matches!(ex.step(Op::Write, draws).action, Action::Nothing));
        assert!(!ex.size_check_due());
    }
    assert_eq!(ex.file_image().unwrap(), ex.good_buf[..16]);
    assert!(matches!(
        ex.step(Op::Write, draws).action,
        Action::Write { .. }
    ));
    assert!(ex.file_image().is_none());
    assert!(!ex.finished());
    assert!(matches!(ex.step(Op::Write, draws).action, Action::Nothing));
    assert!(ex.finished());
}

#[test]
fn the_log_keeps_the_latest_steps() {
    let (mut ex, mut rng) = Exerciser::new(&cli(), &config(500), 8);
    for _ in 0..1030 {
        let draws = draw_step(&mut rng, ex.opsize, Op::Fsync);
        assert_eq!(draws.length, 0);
        ex.step(Op::Fsync, draws);
    }
    let lines = ex.dump_logfile();
    assert_eq!(lines.len(), 2 + 1024);
    assert_eq!(lines[2], "     7 FSYNC");
    assert_eq!(lines[1025], "  1030 FSYNC");
    assert!(ex.failure_report().ends_with("1030: Fsync\n"));
}

#[test]
fn the_log_shows_every_kind_of_entry() {
    let (mut ex, _) = Exerciser::new(&cli(), &config(0x100), 8);
    let draws = |size: usize, offset: u32, length: u32| Draws {
        size,
        offset,
        length,
    };
    ex.step(Op::Read, draws(5, 0, 0));
    ex.step(Op::CloseOpen, draws(5, 0, 0));
    ex.step(Op::Truncate, draws(5, 0, 0x20));
    ex.step(Op::Write, draws(4, 2, 0));
    ex.step(Op::MapRead, draws(4, 2, 0));
    ex.step(Op::Truncate, draws(5, 0, 0x10));
    ex.step(Op::MapWrite, draws(8, 16, 0));
    ex.step(Op::Fdatasync, draws(5, 0, 0));
    assert_eq!(
        ex.dump_logfile(),
        vec![
            "Using seed 8",
            "LOG DUMP",
            "     1 SKIPPED  (read)",
            "     2 CLOSE/OPEN",
            "     3 TRUNCATE  UP   from   0x0 to  0x20",
            "     4 WRITE      0x2 =>   0x6 ( 0x4 bytes)",
            "     5 MAPREAD    0x2 =>   0x6 ( 0x4 bytes)",
            "     6 TRUNCATE  DOWN from  0x20 to  0x10",
            "     7 MAPWRITE  0x10 =>  0x18 ( 0x8 bytes) EXTEND",
            "     8 FDATASYNC",
        ]
    );
    for entry in [
        LogEntry::Skip(Op::MapRead),
        LogEntry::Read(1, 2),
        LogEntry::Write(1, 2, 3),
        LogEntry::MapRead(4, 5),
        LogEntry::Truncate(6, 7),
        LogEntry::MapWrite(8, 9, 10),
        LogEntry::Fsync,
    ] {
        assert_eq!(entry.debug(), format!("{entry:?}"));
    }
    assert_eq!(Op::from_index(4), Some(Op::Truncate));
    assert_eq!(Op::from_index(8), None);
}

#[test]
fn workers_get_targets_of_their_own() {
    let mut options = cli();
    options.seed = Some(u64::MAX);
    options.artifacts_dir = Some("art".to_string());
    let target = thread_target(&options, 2).unwrap();
    assert_eq!(target.cli.fname.as_deref(), Some("/tmp/dir/thread-2/fsxfile"));
    assert_eq!(target.cli.seed, Some(0));
    assert_eq!(target.cli.artifacts_dir.as_deref(), Some("art/thread-2"));
    assert_eq!(target.dirs, vec!["/tmp/dir/thread-2", "art/thread-2"]);
    options.fname = Some("x".to_string());
    options.artifacts_dir = None;
    options.seed = None;
    let target = thread_target(&options, 10).unwrap();
    assert_eq!(target.cli.fname.as_deref(), Some("./thread-10/x"));
    assert_eq!(target.dirs, vec!["./thread-10"]);
    options.fname = Some("/".to_string());
    let target = thread_target(&options, 1).unwrap();
    assert_eq!(target.cli.fname.as_deref(), Some("./thread-1/fsxfile"));
    options.fname = None;
    assert_eq!(
        thread_target(&options, 1).err(),
        Some("file name is required".to_string())
    );
    assert_eq!(worker_count(&options, None), 1);
    assert_eq!(worker_count(&options, Some(7)), 7);
    options.threads = Some(3);
    assert_eq!(worker_count(&options, Some(7)), 3);
}

#[test]
fn the_first_complaint_is_reported() {
    let failed = |s: &str| WorkerEnd::Failed(s.to_string());
    assert_eq!(run_workers(&vec![WorkerEnd::Finished]), Ok(()));
    assert_eq!(run_workers(&vec![failed("bad")]), Err("bad".to_string()));
    assert_eq!(
        run_workers(&vec![WorkerEnd::Panicked(None)]),
        Err("unknown panic".to_string())
    );
    assert_eq!(
        run_workers(&vec![
            WorkerEnd::Finished,
            WorkerEnd::Panicked(Some("boom".to_string())),
            failed("bad"),
        ]),
        Err("thread-2 failed: boom".to_string())
    );
    assert_eq!(panic_message(Some("x".to_string())), "x");
    assert_eq!(panic_message(None), "unknown panic");
    assert_eq!(
        start_failure(false, 3, "no room"),
        "failed to prepare thread-3: no room"
    );
    assert_eq!(
        start_failure(true, 3, "no room"),
        "failed to spawn thread-3: no room"
    );
}

#[test]
fn byte_ranges_are_parsed() {
    assert_eq!(parse_monitor("1:20"), Ok((1, 20)));
    assert_eq!(
        parse_monitor("1:2:3"),
        Err("-m argument must contain exactly one ':'".to_string())
    );
    assert_eq!(
        parse_monitor("12"),
        Err("-m argument must contain exactly one ':'".to_string())
    );
    assert_eq!(
        parse_monitor("a:2"),
        Err("-m arguments must be numeric".to_string())
    );
}

#[test]
fn steps_are_drawn_from_the_generator() {
    let (ex, mut rng) = Exerciser::new(&cli(), &config(100), 42);
    let mut theirs = XorShiftRng::seed_from_u64(42);
    let mut bytes = vec![0u8; 100];
    theirs.fill_bytes(&mut bytes);
    for op in OPS {
        let draws = draw_step(&mut rng, ex.opsize, op);
        assert_eq!(draws.size, theirs.gen_range(1..=64usize));
        assert_eq!(draws.offset, theirs.gen::<u32>());
        if op == Op::Truncate {
            assert_eq!(draws.length, theirs.gen::<u32>());
        } else {
            assert_eq!(draws.length, 0);
        }
    }
}

#[test]
fn failures_say_what_happened_before() {
    let (mut ex, _) = Exerciser::new(&cli(), &config(0x100), 3);
    ex.step(
        Op::Fsync,
        Draws {
            size: 1,
            offset: 0,
            length: 0,
        },
    );
    let failure = ex.fail("no luck");
    assert_eq!(
        failure.lines,
        ["no luck", "Using seed 3", "LOG DUMP", "     1 FSYNC"]
    );
    assert_eq!(failure.error.message, "no luck");
    assert_eq!(ex.save_goodfile(), "/tmp/dir/fsxfile.fsxgood");
}

#[test]
fn workers_have_seeds_of_their_own() {
    let mut options = cli();
    options.seed = Some(40);
    let seeds = (1..=5)
        .map(|n| thread_target(&options, n).unwrap().cli.seed)
        .collect::<Vec<_>>();
    assert_eq!(seeds, [Some(40), Some(41), Some(42), Some(43), Some(44)]);
}

#[test]
fn a_log_is_read_but_for_a_gap() {
    let (mut ex, _) = Exerciser::new(&cli(), &config(100), 1);
    let most = isize::MAX as u64;
    for (steps, can) in [
        (0, true),
        (most + 1, true),
        (most + 2, false),
        (most + 1024, false),
        (most + 1025, true),
    ] {
        ex.steps = steps;
        assert_eq!(ex.can_dump(), can);
    }
    ex.steps = most + 2;
    let mut buf = ex.good_buf[0..4].to_vec();
    assert!(ex.can_check(&buf, 0));
    buf[0] ^= 1;
    assert!(!ex.can_check(&buf, 0));
}
