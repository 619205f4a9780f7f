use std::collections::BTreeSet;

use fsx_wasix::clock::{civil_from_days, current_timestamp};
use fsx_wasix::codec::{
    read_string, read_u32, read_u64, read_var_bytes, read_var_i64, read_var_u64, write_string,
    write_u32, write_u64, write_var_bytes, write_var_i64, write_var_u64, Source,
};
use fsx_wasix::hash::stable_hash;
use fsx_wasix::numbers::{parse_number, parse_positive, value_of_digit};
use fsx_wasix::ops::{FileId, Op, OpenMode, ReadSize, SeekTarget, WritePayload};
use fsx_wasix::pathorder::comes_before;
use fsx_wasix::paths::{
    components, file_name, has_gz, is_plain, join, join_report_path, parent, same_path,
};
use fsx_wasix::reader::read_report;
use fsx_wasix::report::{ComparableRecord, FileSnapshot, ReportWriter};
use fsx_wasix::result::{OpResult, OracleErr};
use fsx_wasix::selection::sample_case_ids;
use fsx_wasix::strings::{control, lines, second_part, split_once, trim, white, words};
use fsx_wasix::text::{
    contains_text, dec_text, hex_text, join_texts, lower_ascii, split_text, starts_with,
};
use rand::rngs::StdRng;
use rand::seq::SliceRandom;
use rand::{Rng, SeedableRng};

const PATHS: [&str; 22] = [
    "", "/", ".", "..", "a", "a/", "/a", "a/b", "a//b", "a/./b", "./a", "./", "a/..", "../a",
    "/a/b.gz", "x.gz", ".gz", "a/.gz/", "dir/sub/file.tar.gz", "a/b/.", "//", "é/ü",
];

#[test]
fn paths_agree_with_the_standard_library() {
    for a in PATHS {
        let p = std::path::Path::new(a);
        assert_eq!(
            file_name(a),
            p.file_name().map(|s| s.to_str().unwrap().to_string()),
            "{a}"
        );
        assert_eq!(
            parent(a),
            p.parent().map(|s| s.to_str().unwrap().to_string()),
            "{a}"
        );
        assert_eq!(
            has_gz(a),
            p.extension().and_then(|e| e.to_str()) == Some("gz"),
            "{a}"
        );
        assert_eq!(components(a).len(), p.components().count(), "{a}");
        for b in PATHS {
            let q = std::path::Path::new(b);
            assert_eq!(same_path(a, b), p == q, "{a} {b}");
            assert_eq!(comes_before(a, b), p < q, "{a} {b}");
            assert_eq!(join(a, b), p.join(q).to_str().unwrap(), "{a} {b}");
        }
    }
}

#[test]
fn report_paths_stay_under_their_base() {
    assert_eq!(
        join_report_path("/base", "run", "case/A").unwrap(),
        "/base/run/case/A"
    );
    for rel in ["../x", "/x", "a/../b"] {
        assert!(join_report_path("/base", "run", rel).is_err());
        assert!(!is_plain(rel));
    }
}

#[test]
fn numbers_agree_with_the_standard_library() {
    for s in [
        "", "+", "-", "0", "00", "+7", "-7", "12a", "a12", "65535", "65536", "4294967295",
        "4294967296", "18446744073709551615", "18446744073709551616", "99999999999999999999x",
        " 1", "1 ", "1_000", "٣",
    ] {
        let same = |ours: Result<u64, String>, theirs: Result<u64, String>| {
            assert_eq!(ours, theirs, "{s:?}")
        };
        let text = |r: Result<u64, fsx_wasix::numbers::NumberError>| {
            r.map_err(|e| e.text().to_string())
        };
        same(
            text(parse_number(s, 10, u64::MAX)),
            s.parse::<u64>().map_err(|e| e.to_string()),
        );
        same(
            text(parse_number(s, 10, u32::MAX as u64)),
            s.parse::<u32>().map(u64::from).map_err(|e| e.to_string()),
        );
        same(
            text(parse_number(s, 10, u16::MAX as u64)),
            s.parse::<u16>().map(u64::from).map_err(|e| e.to_string()),
        );
        same(
            text(parse_positive(s, 10, u64::MAX)),
            s.parse::<std::num::NonZeroU64>()
                .map(|n| n.get())
                .map_err(|e| e.to_string()),
        );
        same(
            text(parse_number(s, 16, u64::MAX)),
            u64::from_str_radix(s, 16).map_err(|e| e.to_string()),
        );
    }
    for c in (0..0x250u32).filter_map(char::from_u32) {
        assert_eq!(value_of_digit(c), c.to_digit(36).map(u64::from));
    }
}

#[test]
fn characters_agree_with_the_standard_library() {
    for c in (0..=0x10ffffu32).filter_map(char::from_u32) {
        assert_eq!(white(c), c.is_whitespace(), "{c:?}");
        assert_eq!(control(c), c.is_control(), "{c:?}");
    }
}

#[test]
fn text_agrees_with_the_standard_library() {
    for s in [
        "", "\n", "a", "a\n", "a\r\n", "a\r", "\r\n\r\n", "a\nb", "a\r\nb\r", "  a \u{2003}b  ",
        "\t x", "GET /run?a=b HTTP/1.1\r\nHost: x\r\n\r\nbody\r\n\r\nmore", "é\u{85}",
    ] {
        assert_eq!(lines(s), s.lines().collect::<Vec<_>>(), "{s:?}");
        assert_eq!(
            words(s),
            s.split_ascii_whitespace().collect::<Vec<_>>(),
            "{s:?}"
        );
        assert_eq!(trim(s), s.trim(), "{s:?}");
        assert_eq!(
            split_text(s, '\n'),
            s.split('\n').collect::<Vec<_>>(),
            "{s:?}"
        );
        assert_eq!(lower_ascii(s), s.to_ascii_lowercase(), "{s:?}");
        for w in ["", "\r\n\r\n", "a", "?", "b\r"] {
            assert_eq!(starts_with(s, w), s.starts_with(w), "{s:?} {w:?}");
            assert_eq!(contains_text(s, w), s.contains(w), "{s:?} {w:?}");
            if !w.is_empty() {
                assert_eq!(
                    split_once(s, w),
                    s.split_once(w).map(|(a, b)| (a.to_string(), b.to_string())),
                    "{s:?} {w:?}"
                );
                assert_eq!(
                    second_part(s, w),
                    s.split(w).nth(1).map(|p| p.to_string()),
                    "{s:?} {w:?}"
                );
            }
        }
    }
    for n in [0u64, 9, 10, 15, 16, 255, 1_000_000, u64::MAX] {
        assert_eq!(dec_text(n), format!("{n}"));
        assert_eq!(hex_text(n), format!("{n:x}"));
    }
    let parts = vec!["a".to_string(), "b".to_string()];
    assert_eq!(join_texts(&parts, ", "), "a, b");
}

#[test]
fn values_are_read_back() {
    let mut w: Vec<u8> = Vec::new();
    write_u32(&mut w, 0x0102_0304);
    write_u64(&mut w, u64::MAX - 1);
    write_string(&mut w, "naïve");
    write_var_bytes(&mut w, b"xyz");
    for n in [0u64, 127, 128, 300, u64::MAX] {
        write_var_u64(&mut w, n);
    }
    for n in [0i64, -1, 1, 63, -64, i64::MAX, i64::MIN] {
        write_var_i64(&mut w, n);
    }
    assert_eq!(&w[..4], [4, 3, 2, 1]);
    let mut r = Source::new(w);
    assert_eq!(read_u32(&mut r), Ok(0x0102_0304));
    assert_eq!(read_u64(&mut r), Ok(u64::MAX - 1));
    assert_eq!(read_string(&mut r), Ok("naïve".to_string()));
    assert_eq!(read_var_bytes(&mut r), Ok(b"xyz".to_vec()));
    for n in [0u64, 127, 128, 300, u64::MAX] {
        assert_eq!(read_var_u64(&mut r), Ok(n));
    }
    for n in [0i64, -1, 1, 63, -64, i64::MAX, i64::MIN] {
        assert_eq!(read_var_i64(&mut r), Ok(n));
    }
    assert!(read_u32(&mut r).is_err());
}

#[test]
fn text_that_is_no_utf8_is_refused() {
    let mut w: Vec<u8> = Vec::new();
    write_u32(&mut w, 2);
    w.extend_from_slice(&[0xc3, 0x28]);
    let e = read_string(&mut Source::new(w)).unwrap_err();
    let std_error = String::from_utf8(vec![0xc3, 0x28]).unwrap_err().to_string();
    assert_eq!(e, format!("invalid utf-8 in oracle report: {std_error}"));
}

#[test]
fn operations_are_read_back() {
    let ops = [
        Op::Open {
            slot: 1,
            file: FileId::Fixture2,
            mode: OpenMode::ReadWriteTruncate,
        },
        Op::Close { slot: 0 },
        Op::Write {
            slot: 1,
            payload: WritePayload::ZeroBytes,
        },
        Op::Read {
            slot: 0,
            size: ReadSize::Bytes4K,
        },
        Op::WriteStderr,
        Op::Dup {
            src_slot: 0,
            dst_slot: 1,
        },
        Op::Delete { file: FileId::C },
        Op::Seek {
            slot: 1,
            target: SeekTarget::End,
        },
        Op::Fstat { slot: 1 },
        Op::Stat { file: FileId::B },
        Op::ReadDir,
    ];
    for op in ops {
        let mut w: Vec<u8> = Vec::new();
        op.write_to(&mut w);
        assert_eq!(Op::read_from(&mut Source::new(w)), Ok(op));
        assert_eq!(op.debug(), format!("{op:?}"));
    }
    assert!(Op::read_from(&mut Source::new(vec![200])).is_err());
}

fn some_report(path: &str) -> ReportWriter {
    let mut w = ReportWriter::create(path, 1, "run-1");
    let op = Op::Open {
        slot: 0,
        file: FileId::A,
        mode: OpenMode::ReadWriteCreate,
    };
    w.case(1, 0, &[op]);
    w.result(1, 0, op, &OpResult::ok_data(2, b"hi".to_vec()));
    w.snapshot(&FileSnapshot {
        case_id: 1,
        file: FileId::A,
        rel: "case-00000001/A".to_string(),
        exists: true,
        len: 2,
        hash: stable_hash(b"hi"),
    });
    w.end(4);
    w
}

#[test]
fn reports_are_read_back_plain_and_compressed() {
    let plain = some_report("r.bin");
    let packed = some_report("r.bin.gz");
    assert_eq!(plain.bytes, packed.bytes);
    assert_eq!(plain.file_bytes(), plain.bytes);
    let file = packed.file_bytes();
    assert_ne!(file, packed.bytes);
    assert_eq!(&file[..2], [0x1f, 0x8b]);
    for (path, bytes) in [("r.bin", plain.file_bytes()), ("r.bin.gz", file)] {
        let report = read_report(path, bytes).unwrap();
        assert_eq!(report.chain_len, 1);
        assert_eq!(report.records.len(), 4);
        assert!(matches!(
            &report.records[0],
            ComparableRecord::Case { case_id: 1, mask: 0 }
        ));
        match &report.records[1] {
            ComparableRecord::Result {
                step,
                worker,
                rc,
                err,
                data,
                ..
            } => {
                assert_eq!((*step, *worker, *rc), (1, 0, 2));
                assert_eq!(*err, OracleErr::NoErr);
                assert_eq!(data, b"hi");
            }
            _ => panic!("no result"),
        }
        assert!(matches!(
            &report.records[3],
            ComparableRecord::End { cases: 4 }
        ));
    }
}

#[test]
fn broken_reports_are_refused() {
    let bytes = some_report("r.bin").file_bytes();
    assert!(read_report("r.bin", bytes[..20].to_vec()).is_err());
    assert!(read_report("r.bin", bytes[..bytes.len() - 1].to_vec()).is_err());
    for cut in 0..bytes.len() {
        match read_report("r.bin", bytes[..cut].to_vec()) {
            Ok(report) => assert!(report.records.len() < 4, "{cut}"),
            Err(_) => {}
        }
    }
    let mut wrong = bytes.clone();
    wrong[0] = b'X';
    assert!(read_report("r.bin", wrong).is_err());
    let mut packed = some_report("r.bin.gz").file_bytes();
    let last = packed.len() - 6;
    packed[last] ^= 0xff;
    assert!(read_report("r.bin.gz", packed).is_err());
}

#[test]
fn records_show_like_debug() {
    let record = ComparableRecord::Snapshot {
        case_id: 7,
        file: FileId::B,
        rel: "a\"b\n\u{7}é".to_string(),
        exists: true,
        len: 3,
        hash: 9,
    };
    let rel = std::path::PathBuf::from("a\"b\n\u{7}é");
    assert_eq!(
        record.debug(),
        format!("Snapshot {{ case_id: 7, file: B, rel: {rel:?}, exists: true, len: 3, hash: 9 }}")
    );
    let record = ComparableRecord::Result {
        step: 1,
        worker: 0,
        op: Op::WriteStderr,
        rc: -1,
        err: OracleErr::NotFound,
        data: vec![1, 20, 255],
    };
    assert_eq!(
        record.debug(),
        "Result { step: 1, worker: 0, op: WriteStderr, rc: -1, err: NotFound, data: [1, 20, 255] }"
    );
}

#[test]
fn hashes_are_fnv() {
    assert_eq!(stable_hash(b""), 0xcbf2_9ce4_8422_2325);
    assert_eq!(stable_hash(b"a"), 0xaf63_dc4c_8601_ec8c);
    assert_eq!(stable_hash(b"foobar"), 0x8594_4171_f739_67e8);
}

#[test]
fn days_have_their_dates() {
    assert_eq!(civil_from_days(0), (1970, 1, 1));
    assert_eq!(civil_from_days(-1), (1969, 12, 31));
    assert_eq!(civil_from_days(59), (1970, 3, 1));
    assert_eq!(civil_from_days(11_016), (2000, 2, 29));
    assert_eq!(civil_from_days(20_000), (2024, 10, 4));
    assert_eq!(civil_from_days(-719_468), (0, 3, 1));
}

#[test]
fn timestamps_show_date_and_time() {
    assert_eq!(current_timestamp(0), "1970-01-01 00:00:00");
    assert_eq!(current_timestamp(951_827_696), "2000-02-29 12:34:56");
}

#[test]
fn samples_are_drawn_from_the_seed() {
    let mut theirs = StdRng::seed_from_u64(9);
    let mut all = (1..=10usize).collect::<Vec<_>>();
    all.shuffle(&mut theirs);
    let head = all[..6].iter().copied().collect::<BTreeSet<_>>();
    assert_eq!(sample_case_ids(10, 6, 9), Ok(head));

    let mut theirs = StdRng::seed_from_u64(9);
    let mut some = BTreeSet::new();
    while some.len() < 40 {
        some.insert(theirs.gen_range(1..=100usize));
    }
    assert_eq!(sample_case_ids(100, 40, 9), Ok(some));
    assert_eq!(sample_case_ids(0, 4, 9), Ok(BTreeSet::new()));
    assert_eq!(
        sample_case_ids(3, 9, 9),
        Ok(BTreeSet::from([1usize, 2, 3]))
    );
}
