use fsx_wasix::cli::Cli;
use fsx_wasix::fsx::{Config, Opsize};
use fsx_wasix::http::{
    directory_failure, handle_bytes, handle_request, http_response, json_escape, json_response, run_endpoint,
    server_port, server_run_from_params, server_target, EndpointOutcome, Route,
};
use fsx_wasix::oracle::OracleStatus;
use fsx_wasix::params::{decode_url_component, param_bool, param_parse, parse_params};
use fsx_wasix::sha::{base64_encode, sha1};
use fsx_wasix::ws::{
    end_run, error_message, frame_wanted, greet, handshake, json_string, oracle_cli_from_params,
    progress_message, read_text, send_close, send_frame, send_text, start_run, started_message,
    status_message, websocket_accept, websocket_key, WsMessage,
};

fn cli() -> Cli {
    Cli {
        opnum: 1,
        config: Some("c.toml".to_string()),
        monitor: None,
        numops: None,
        artifacts_dir: None,
        seed: Some(3),
        threads: None,
        server: Some(None),
        orchestrated: false,
        oracle: false,
        oracle_prepare_fixtures: None,
        oracle_fixtures: None,
        oracle_output: None,
        oracle_expected: None,
        oracle_case_start: None,
        oracle_case_count: None,
        oracle_sample_count: None,
        oracle_verify_files: None,
        oracle_catalog: false,
        oracle_catalog_key: false,
        oracle_catalog_syscalls: false,
        scenario: "shared-inode".to_string(),
        files: 2,
        handles: 8,
        parallelism: 1,
        verify_every: None,
        manifest: None,
        fname: None,
        inject: None,
    }
}

fn config() -> Config {
    Config {
        flen: None,
        nosizechecks: false,
        opsize: Opsize::default(),
    }
}

#[test]
fn ports_are_found() {
    let mut c = cli();
    assert_eq!(server_port(&c, None), 8080);
    assert_eq!(server_port(&c, Some("3020")), 3020);
    assert_eq!(server_port(&c, Some("70000")), 8080);
    c.server = Some(Some(99));
    assert_eq!(server_port(&c, Some("3020")), 99);
}

#[test]
fn components_are_decoded() {
    assert_eq!(decode_url_component("a+b%20c%C3%A9"), Ok("a b cé".to_string()));
    assert_eq!(decode_url_component("%4a%4A%+f"), Ok("JJ\u{f}".to_string()));
    assert_eq!(
        decode_url_component("100%"),
        Err("truncated percent encoding".to_string())
    );
    assert_eq!(
        decode_url_component("%4"),
        Err("truncated percent encoding".to_string())
    );
    assert_eq!(
        decode_url_component("%zz"),
        Err("invalid percent encoding".to_string())
    );
    assert_eq!(
        decode_url_component("%é"),
        Err("invalid percent encoding".to_string())
    );
    assert_eq!(
        decode_url_component("%ff"),
        Err("query value is not valid utf-8".to_string())
    );
}

#[test]
fn queries_are_parsed() {
    let p = parse_params("a=1&&b&c=x=y&a=2&%6e=7&flag=yes&blank=++").ok().unwrap();
    assert_eq!(p.get("a").as_deref(), Some("2"));
    assert_eq!(p.get("b").as_deref(), Some(""));
    assert_eq!(p.get("c").as_deref(), Some("x=y"));
    assert_eq!(p.get("d"), None);
    assert_eq!(param_parse(&p, "n", u64::MAX, false, false), Ok(Some(7)));
    assert_eq!(param_parse(&p, "d", u64::MAX, false, false), Ok(None));
    assert_eq!(
        param_parse(&p, "c", u64::MAX, false, false),
        Err("invalid c: invalid digit found in string".to_string())
    );
    assert_eq!(
        param_parse(&p, "blank", u64::MAX, false, false),
        Err("invalid blank: invalid digit found in string".to_string())
    );
    assert_eq!(param_parse(&p, "blank", u64::MAX, false, true), Ok(None));
    assert_eq!(
        param_parse(&p, "n", 6, false, false),
        Err("invalid n: number too large to fit in target type".to_string())
    );
    let zero = parse_params("z=0").ok().unwrap();
    assert_eq!(
        param_parse(&zero, "z", 6, true, false),
        Err("invalid z: number would be zero for non-zero type".to_string())
    );
    assert_eq!(param_bool(&p, "flag"), Ok(Some(true)));
    assert_eq!(param_bool(&zero, "z"), Ok(Some(false)));
    assert_eq!(param_bool(&p, "none"), Ok(None));
    assert_eq!(
        param_bool(&p, "a"),
        Err("invalid a: expected boolean".to_string())
    );
    assert!(parse_params("a=%").is_err());
}

#[test]
fn strings_are_escaped() {
    assert_eq!(
        json_escape("a\"b\\c\nd\re\tf\u{1}\u{7f}é"),
        "a\\\"b\\\\c\\nd\\re\\tf\\u0001\\u007fé"
    );
    assert_eq!(json_string(None), "null");
    assert_eq!(json_string(Some("\"")), "\"\\\"\"");
}

#[test]
fn responses_have_their_length() {
    assert_eq!(
        String::from_utf8(http_response("200 OK", "text/plain", "é!")).unwrap(),
        "HTTP/1.1 200 OK\r\nContent-Type: text/plain\r\nContent-Length: 3\r\nConnection: close\r\n\r\né!"
    );
    assert!(String::from_utf8(json_response("404 Not Found", "{}"))
        .unwrap()
        .contains("Content-Type: application/json\r\n"));
}

fn body(route: Route) -> String {
    match route {
        Route::Respond(bytes) => String::from_utf8(bytes).unwrap(),
        _ => panic!("no response"),
    }
}

#[test]
fn requests_are_routed() {
    assert!(matches!(handle_request(""), Route::Ignore));
    assert!(body(handle_request("GET\r\n")).ends_with("{\"ok\":false,\"error\":\"bad request line\"}\n"));
    assert!(body(handle_request("GET /health HTTP/1.1\r\n\r\n")).ends_with("{\"ok\":true}\n"));
    assert!(body(handle_request("GET / HTTP/1.1\r\n\r\n")).contains("fsx HTTP server\n"));
    assert!(body(handle_request("PUT /run HTTP/1.1\r\n\r\n")).starts_with("HTTP/1.1 404 Not Found"));
    assert!(body(handle_request("GET /run?a=%zz HTTP/1.1\r\n\r\n"))
        .ends_with("{\"ok\":false,\"error\":\"invalid percent encoding\"}\n"));
    match handle_request("GET /run?n=5&cwd=/tmp HTTP/1.1\r\n\r\n") {
        Route::Run(p) => {
            assert_eq!(p.get("n").as_deref(), Some("5"));
            assert_eq!(p.get("cwd").as_deref(), Some("/tmp"));
        }
        _ => panic!("no run"),
    }
    match handle_request("POST /run?n=5 HTTP/1.1\r\nA: b\r\n\r\nn=6") {
        Route::Run(p) => assert_eq!(p.get("n").as_deref(), Some("6")),
        _ => panic!("no run"),
    }
}

#[test]
fn targets_are_found() {
    let t = server_target(&parse_params("").ok().unwrap());
    assert_eq!((t.cwd.as_str(), t.fname.as_str()), (".", "./fsxfile"));
    assert_eq!(t.dir.as_deref(), Some("."));
    let t = server_target(&parse_params("cwd=/tmp&file=x").ok().unwrap());
    assert_eq!(t.fname, "/tmp/x");
    let t = server_target(&parse_params("cwd=/tmp&path=/data/y&file=x").ok().unwrap());
    assert_eq!(t.fname, "/data/y");
    assert_eq!(t.dir.as_deref(), Some("/data"));
    let t = server_target(&parse_params("cwd=&file=x").ok().unwrap());
    assert_eq!((t.fname.as_str(), t.dir), ("x", None));
    assert_eq!(directory_failure(true, "e"), "failed to create target directory: e");
    assert_eq!(directory_failure(false, "e"), "failed to create cwd: e");
}

#[test]
fn runs_are_asked_for() {
    let ask = |q: &str, weights: Result<(), String>| {
        server_run_from_params(&cli(), &config(), &parse_params(q).ok().unwrap(), weights)
    };
    let run = ask(
        "cwd=/tmp&n=7&j=2&seed=9&opnum=4&flen=100&nosizechecks=on&opsize_min=1&opsize_max=8&opsize_align=2&artifacts_dir=a&inject=3&timeout_ms=50",
        Ok(()),
    )
    .ok()
    .unwrap();
    assert_eq!(run.cli.fname.as_deref(), Some("/tmp/fsxfile"));
    assert_eq!(run.cli.config, None);
    assert_eq!(run.cli.server, None);
    assert_eq!(
        (run.cli.numops, run.cli.threads, run.cli.seed, run.cli.opnum, run.cli.inject),
        (Some(7), Some(2), Some(9), 4, Some(3))
    );
    assert_eq!(run.cli.artifacts_dir.as_deref(), Some("a"));
    assert_eq!(run.config.flen, Some(100));
    assert!(run.config.nosizechecks);
    assert_eq!(
        (run.config.opsize.min, run.config.opsize.max, run.config.opsize.align),
        (1, 8, Some(2))
    );
    assert_eq!(run.timeout_ms, Some(50));
    let run = ask("numops=5&n=7", Ok(())).ok().unwrap();
    assert_eq!((run.cli.numops, run.cli.seed, run.timeout_ms), (Some(5), Some(3), None));
    assert_eq!(ask("", Ok(())).ok().unwrap().cli.numops, Some(1000));
    let err = |q: &str, w: Result<(), String>| ask(q, w).err().unwrap();
    assert_eq!(
        err("numops=5&n=x", Ok(())),
        "invalid n: invalid digit found in string"
    );
    assert_eq!(
        err("threads=0", Ok(())),
        "invalid threads: number would be zero for non-zero type"
    );
    assert_eq!(err("flen=0", Err("weights".to_string())), "weights");
    assert_eq!(err("flen=0", Ok(())), "file length must be greater than zero");
    assert_eq!(
        err("timeout_ms=-1", Ok(())),
        "invalid timeout_ms: invalid digit found in string"
    );
}

#[test]
fn endpoints_answer() {
    let answer = |o: EndpointOutcome| {
        String::from_utf8(run_endpoint(&o, 3, 10, 25, "/t \"q\"")).unwrap()
    };
    let a = answer(EndpointOutcome::Done(3));
    assert!(a.starts_with("HTTP/1.1 200 OK\r\n"));
    assert!(a.ends_with("{\"ok\":true,\"workers\":3,\"numops_per_worker\":10,\"total_ops_planned\":30,\"elapsed_ms\":25,\"target\":\"/t \\\"q\\\"\"}\n"));
    let a = answer(EndpointOutcome::Failed("bad\n".to_string()));
    assert!(a.starts_with("HTTP/1.1 500 Internal Server Error\r\n"));
    assert!(a.ends_with("{\"ok\":false,\"workers\":3,\"numops_per_worker\":10,\"elapsed_ms\":25,\"target\":\"/t \\\"q\\\"\",\"error\":\"bad\\n\"}\n"));
    let a = answer(EndpointOutcome::TimedOut);
    assert!(a.starts_with("HTTP/1.1 504 Gateway Timeout\r\n"));
    assert!(a.ends_with("\"error\":\"timeout exceeded; run continues in background\"}\n"));
    let a = answer(EndpointOutcome::Disconnected);
    assert!(a.ends_with("{\"ok\":false,\"error\":\"worker coordinator disconnected\"}\n"));
    let a = answer(EndpointOutcome::Refused("no".to_string()));
    assert!(a.starts_with("HTTP/1.1 400 Bad Request\r\n"));
    let big = run_endpoint(&EndpointOutcome::Done(3), 3, u64::MAX, 0, "");
    assert!(String::from_utf8(big)
        .unwrap()
        .contains("\"total_ops_planned\":18446744073709551615,"));
}

fn hex(bytes: &[u8]) -> String {
    bytes.iter().map(|b| format!("{b:02x}")).collect()
}

#[test]
fn hashes_are_sha1() {
    assert_eq!(hex(&sha1(b"")), "da39a3ee5e6b4b0d3255bfef95601890afd80709");
    assert_eq!(hex(&sha1(b"abc")), "a9993e364706816aba3e25717850c26c9cd0d89d");
    assert_eq!(
        hex(&sha1(
            b"abcdbcdecdefdefgefghfghighijhijkijkljklmklmnlmnomnopnopq"
        )),
        "84983e441c3bd26ebaae4aa1f95129e5e54670f1"
    );
    assert_eq!(
        hex(&sha1(&vec![b'a'; 1_000_000])),
        "34aa973cd4c4daa4f61eeb2bdbad27316534016f"
    );
}

#[test]
fn bytes_are_base64() {
    for (bytes, text) in [
        ("", ""),
        ("f", "Zg=="),
        ("fo", "Zm8="),
        ("foo", "Zm9v"),
        ("foob", "Zm9vYg=="),
        ("fooba", "Zm9vYmE="),
        ("foobar", "Zm9vYmFy"),
    ] {
        assert_eq!(base64_encode(bytes.as_bytes()), text);
    }
    assert_eq!(base64_encode(&[0xfb, 0xff, 0xbf]), "+/+/");
}

#[test]
fn handshakes_are_accepted() {
    let request = "GET /ws HTTP/1.1\r\nHost: x\r\nsec-websocket-KEY:  dGhlIHNhbXBsZSBub25jZQ== \r\n\r\n";
    let key = websocket_key(request);
    assert_eq!(key.as_deref(), Some("dGhlIHNhbXBsZSBub25jZQ=="));
    assert_eq!(
        websocket_accept("dGhlIHNhbXBsZSBub25jZQ=="),
        "s3pPLMBiTxaQ9kYGzzhZRbK+xOo="
    );
    assert_eq!(websocket_key("GET / HTTP/1.1\r\n\r\n"), None);
    let first = greet(&key).ok().unwrap();
    assert_eq!(
        String::from_utf8(first[0].clone()).unwrap(),
        handshake("s3pPLMBiTxaQ9kYGzzhZRbK+xOo=")
    );
    assert!(first[0].ends_with(b"Sec-WebSocket-Accept: s3pPLMBiTxaQ9kYGzzhZRbK+xOo=\r\n\r\n"));
    assert_eq!(greet(&None).err(), Some("missing websocket key".to_string()));
}

fn text_of(frame: &Vec<u8>) -> String {
    assert_eq!(frame_wanted(frame), Ok(frame.len()));
    match read_text(frame) {
        Ok(WsMessage::Text(s)) => s,
        _ => panic!("no text"),
    }
}

#[test]
fn frames_are_read_back() {
    for len in [0usize, 1, 125, 126, 127, 65_535, 65_536, 70_000] {
        let text = "x".repeat(len);
        let frame = send_text(&text);
        assert_eq!(text_of(&frame), text);
        let start = frame.len() - len;
        for cut in [0, 1, 2, start.min(frame.len())] {
            let part = frame[..cut].to_vec();
            let wanted = frame_wanted(&part).unwrap();
            assert!(wanted > cut || cut == frame.len());
            assert!(wanted <= frame.len() || cut < start);
        }
    }
    assert!(matches!(read_text(&send_close()), Ok(WsMessage::Close)));
    assert!(matches!(
        read_text(&send_frame(2, b"bin")),
        Ok(WsMessage::Ignore)
    ));
    match read_text(&send_frame(9, b"ping")) {
        Ok(WsMessage::Pong(bytes)) => assert_eq!(bytes, send_frame(10, b"ping")),
        _ => panic!("no pong"),
    }
    assert_eq!(
        read_text(&send_frame(1, &[0xff])).err(),
        Some("text frame is not utf-8".to_string())
    );
}

#[test]
fn masked_frames_are_unmasked() {
    let frame = vec![
        0x81, 0x85, 0x37, 0xfa, 0x21, 0x3d, 0x7f, 0x9f, 0x4d, 0x51, 0x58,
    ];
    assert_eq!(text_of(&frame), "Hello");
    assert_eq!(frame_wanted(&frame[..2].to_vec()), Ok(11));
}

#[test]
fn long_messages_are_refused() {
    let mut head = vec![0x81, 127];
    assert_eq!(frame_wanted(&head), Ok(10));
    head.extend_from_slice(&(1_048_577u64).to_be_bytes());
    assert_eq!(
        frame_wanted(&head),
        Err("websocket message is too large".to_string())
    );
    let mut head = vec![0x81, 127];
    head.extend_from_slice(&(1_048_576u64).to_be_bytes());
    assert_eq!(frame_wanted(&head), Ok(10 + 1_048_576));
}

#[test]
fn oracle_runs_are_asked_for() {
    let ask = |q: &str| oracle_cli_from_params(&cli(), &parse_params(q).ok().unwrap());
    let c = ask("").ok().unwrap();
    assert_eq!(c.fname.as_deref(), Some("/data/fsx-oracle-ws"));
    assert_eq!(c.numops, Some(2));
    assert!(c.oracle);
    assert_eq!(
        c.oracle_output.as_deref(),
        Some("/data/fsx-oracle-ws/oracle-report.bin")
    );
    assert_eq!(c.oracle_expected, None);
    let c = ask("cwd=/c&root=/r&chain_length=&n=3&output=o&expected=+&numops=4").ok().unwrap();
    assert_eq!(c.fname.as_deref(), Some("/r"));
    assert_eq!(c.numops, Some(3));
    assert_eq!(c.oracle_output.as_deref(), Some("o"));
    assert_eq!(c.oracle_expected, None);
    let c = ask("expected=e&oracle_output=p&output=o").ok().unwrap();
    assert_eq!(c.oracle_expected.as_deref(), Some("e"));
    assert_eq!(c.oracle_output.as_deref(), Some("p"));
    assert_eq!(
        ask("n=0").err(),
        Some("chain length must be greater than zero".to_string())
    );
    assert_eq!(
        ask("n=x").err(),
        Some("invalid n: invalid digit found in string".to_string())
    );
    let (c, frame) = start_run(&cli(), "root=/r&n=2").ok().unwrap();
    assert_eq!(text_of(&frame), started_message(&c));
    assert_eq!(
        started_message(&c),
        "{\"type\":\"started\",\"ok\":true,\"root\":\"/r\",\"output\":\"/r/oracle-report.bin\",\"chain_length\":2}"
    );
    assert!(start_run(&cli(), "a=%").is_err());
}

#[test]
fn messages_are_json() {
    assert_eq!(
        error_message("a\"b"),
        "{\"type\":\"error\",\"ok\":false,\"error\":\"a\\\"b\"}"
    );
    assert_eq!(
        progress_message("t", "12.50", 1, 8, "l"),
        "{\"type\":\"progress\",\"ok\":true,\"timestamp\":\"t\",\"percent\":12.50,\"index\":1,\"total\":8,\"line\":\"l\"}"
    );
    let status = OracleStatus {
        phase: "verify".to_string(),
        message: "m".to_string(),
        expected: Some("e".to_string()),
        actual: None,
    };
    assert_eq!(
        status_message(&status),
        "{\"type\":\"verify\",\"ok\":true,\"message\":\"m\",\"expected\":\"e\",\"actual\":null}"
    );
    let frames = end_run(&Ok(()));
    assert_eq!(text_of(&frames[0]), "{\"type\":\"done\",\"ok\":true}");
    assert_eq!(frames[1], send_close());
    let frames = end_run(&Err("x".to_string()));
    assert_eq!(text_of(&frames[0]), error_message("x"));
}

fn base64_bytes(text: &str) -> Vec<u8> {
    const ALPHABET: &[u8] = b"ABCDEFGHIJKLMNOPQRSTUVWXYZabcdefghijklmnopqrstuvwxyz0123456789+/";
    let mut out = Vec::new();
    let (mut bits, mut count) = (0u32, 0);
    for c in text.bytes().filter(|c| *c != b'=') {
        let value = ALPHABET.iter().position(|a| *a == c).unwrap() as u32;
        bits = bits << 6 | value;
        count += 6;
        if count >= 8 {
            count -= 8;
            out.push((bits >> count) as u8);
            bits &= (1 << count) - 1;
        }
    }
    out
}

#[test]
fn base64_is_read_back() {
    let bytes: Vec<u8> = (0..=255u8).rev().collect();
    for len in 0..=bytes.len() {
        let text = base64_encode(&bytes[..len]);
        assert_eq!(text.len(), (len + 2) / 3 * 4);
        let padding = (3 - len % 3) % 3;
        assert_eq!(text.trim_end_matches('=').len(), text.len() - padding);
        assert!(!text.trim_end_matches('=').contains('='));
        assert_eq!(base64_bytes(&text), bytes[..len]);
    }
}

fn json_text(escaped: &str) -> String {
    let mut out = String::new();
    let mut chars = escaped.chars();
    while let Some(c) = chars.next() {
        assert!(c != '"' && !c.is_control());
        if c != '\\' {
            out.push(c);
            continue;
        }
        match chars.next().unwrap() {
            'n' => out.push('\n'),
            'r' => out.push('\r'),
            't' => out.push('\t'),
            'u' => {
                let code: String = chars.by_ref().take(4).collect();
                let code = u32::from_str_radix(&code, 16).unwrap();
                out.push(char::from_u32(code).unwrap());
            }
            c => out.push(c),
        }
    }
    out
}

#[test]
fn escaped_text_is_read_back() {
    assert_eq!(json_escape("a\u{9f}b\u{0}"), "a\\u009fb\\u0000");
    assert_eq!(json_escape("plain / é \u{1f600}"), "plain / é \u{1f600}");
    for code in 0..0x300u32 {
        let text = format!("\\u{}\"", char::from_u32(code).unwrap());
        assert_eq!(json_text(&json_escape(&text)), text);
    }
}

#[test]
fn encoded_components_are_read_back() {
    for text in ["", "a b+c%d&e=f", "é\u{1f600}\u{0}", "100%+"] {
        let mut upper = String::new();
        let mut lower = String::new();
        let mut mixed = String::new();
        for b in text.bytes() {
            upper.push_str(&format!("%{b:02X}"));
            lower.push_str(&format!("%{b:02x}"));
            match b {
                b' ' => mixed.push('+'),
                b if b.is_ascii() && b != b'+' && b != b'%' => mixed.push(b as char),
                b => mixed.push_str(&format!("%{b:02x}")),
            }
        }
        for code in [upper, lower, mixed] {
            assert_eq!(decode_url_component(&code), Ok(text.to_string()));
        }
    }
}

#[test]
fn requests_come_as_bytes() {
    let answer = |request: &[u8]| match handle_bytes(request) {
        Route::Respond(bytes) => String::from_utf8(bytes).unwrap(),
        _ => panic!("no answer"),
    };
    assert!(answer(b"GET /health HTTP/1.1\r\n\r\n").starts_with("HTTP/1.1 200 OK"));
    assert!(answer(b"GET /health\xff HTTP/1.1\r\n\r\n").starts_with("HTTP/1.1 404"));
    match handle_bytes(b"GET /run?file=a\xffb HTTP/1.1\r\n\r\n") {
        Route::Run(params) => assert_eq!(params.get("file").as_deref(), Some("a\u{fffd}b")),
        _ => panic!("no run"),
    }
    assert!(matches!(handle_bytes(b""), Route::Ignore));
}
