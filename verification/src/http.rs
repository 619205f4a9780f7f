//! The HTTP server: requests, the runs that they ask for, and responses.

use vstd::prelude::*;
use vstd::string::*;
use vstd::utf8::*;

use crate::cli::{opt_text, Cli, CliView};
use crate::compare::verdict_text;
use crate::fsx::{config_verdict, Config, Opsize};
use crate::numbers::{number_of, parse_number};
use crate::params::{
    flag_param, number_param, param_bool, param_parse, parse_params, query_params, value_of, Params,
};
use crate::paths::{join, joined_path, parent, parent_of};
use crate::strings::{
    control, cut_at, is_control, lines, lines_of, second_part, second_piece, split_once, words,
    words_of,
};
use crate::text::{
    chars_of, dec, digit_char, hex, pad_left, push_dec, push_hex_padded, same_text, texts,
};

verus! {

/// The port to listen on: the one asked for, the one that `PORT` gives, or 8080.
pub fn server_port(cli: &Cli, env_port: Option<&str>) -> (port: u16)
    ensures
        port == match cli.server {
            Some(Some(port)) => port,
            _ => match env_port {
                Some(s) => match number_of(s@, 10, u16::MAX as nat) {
                    Ok(n) => n as u16,
                    Err(_) => 8080,
                },
                None => 8080,
            },
        },
{
    if let Some(Some(port)) = cli.server {
        return port;
    }
    match env_port {
        Some(s) => match parse_number(s, 10, u16::MAX as u64) {
            Ok(n) => n as u16,
            Err(_) => 8080,
        },
        None => 8080,
    }
}

/// A character as it stands in a JSON string.
pub open spec fn escaped_char(c: char) -> Seq<char> {
    if c == '"' {
        "\\\""@
    } else if c == '\\' {
        "\\\\"@
    } else if c == '\n' {
        "\\n"@
    } else if c == '\r' {
        "\\r"@
    } else if c == '\t' {
        "\\t"@
    } else if is_control(c) {
        "\\u"@ + pad_left(hex(c as nat), 4, '0')
    } else {
        seq![c]
    }
}

/// A text as it stands in a JSON string.
pub open spec fn escaped(s: Seq<char>) -> Seq<char>
    decreases s.len(),
{
    if s.len() == 0 {
        Seq::empty()
    } else {
        escaped(s.drop_last()) + escaped_char(s.last())
    }
}

fn push_escaped(out: &mut String, c: char)
    ensures
        final(out)@ == old(out)@ + escaped_char(c),
{
    let ghost before = out@;
    if c == '"' {
        out.append("\\\"");
    } else if c == '\\' {
        out.append("\\\\");
    } else if c == '\n' {
        out.append("\\n");
    } else if c == '\r' {
        out.append("\\r");
    } else if c == '\t' {
        out.append("\\t");
    } else if control(c) {
        out.append("\\u");
        let n: u32 = c as u32;
        push_hex_padded(out, n as u64, 4);
        assert(out@ =~= before + escaped_char(c));
    } else {
        out.push(c);
        assert(out@ =~= before + escaped_char(c));
    }
}

pub fn json_escape(s: &str) -> (out: String)
    ensures
        out@ == escaped(s@),
{
    let chars = chars_of(s);
    let total: usize = chars.len();
    let mut out = String::new();
    let mut i: usize = 0;
    assert(out@ =~= escaped(chars@.take(0)));
    while i < total
        invariant
            total == chars@.len(),
            i <= total,
            out@ == escaped(chars@.take(i as int)),
        decreases total - i,
    {
        assert(chars@.take(i + 1).drop_last() =~= chars@.take(i as int));
        assert(chars@.take(i + 1).last() == chars@[i as int]);
        push_escaped(&mut out, chars[i]);
        i = i + 1;
    }
    assert(chars@.take(i as int) =~= chars@);
    out
}

/// The text of a response.
pub open spec fn response_text(status: Seq<char>, kind: Seq<char>, body: Seq<char>) -> Seq<char> {
    "HTTP/1.1 "@ + status + "\r\nContent-Type: "@ + kind + "\r\nContent-Length: "@ + dec(
        encode_utf8(body).len(),
    ) + "\r\nConnection: close\r\n\r\n"@ + body
}

pub fn http_response(status: &str, content_type: &str, body: &str) -> (out: Vec<u8>)
    ensures
        out@ == encode_utf8(response_text(status@, content_type@, body@)),
{
    let mut s = "HTTP/1.1 ".to_string();
    s.append(status);
    s.append("\r\nContent-Type: ");
    s.append(content_type);
    s.append("\r\nContent-Length: ");
    push_dec(&mut s, body.as_bytes().len() as u64);
    s.append("\r\nConnection: close\r\n\r\n");
    s.append(body);
    let mut out: Vec<u8> = Vec::new();
    out.extend_from_slice(s.as_str().as_bytes());
    assert(out@ =~= encode_utf8(s@));
    out
}

pub open spec fn json_text(status: Seq<char>, body: Seq<char>) -> Seq<char> {
    response_text(status, "application/json"@, body)
}

pub fn json_response(status: &str, body: &str) -> (out: Vec<u8>)
    ensures
        out@ == encode_utf8(json_text(status@, body@)),
{
    http_response(status, "application/json", body)
}

/// The body that says what is wrong with a request.
pub open spec fn error_body(error: Seq<char>) -> Seq<char> {
    "{\"ok\":false,\"error\":\""@ + escaped(error) + "\"}\n"@
}

fn error_text(error: &str) -> (s: String)
    ensures
        s@ == error_body(error@),
{
    "{\"ok\":false,\"error\":\"".to_string().concat(json_escape(error).as_str()).concat("\"}\n")
}

/// What a request runs on: the directory, the file in it, and the file's directory.
pub struct ServerTarget {
    pub cwd: String,
    pub fname: String,
    pub dir: Option<String>,
}

pub open spec fn asked_dir(p: Map<Seq<char>, Seq<char>>) -> Seq<char> {
    match value_of(p, "cwd"@) {
        Some(dir) => dir,
        None => "."@,
    }
}

/// The file that a request asks for: `path`, under the directory unless it is absolute, or
/// else `file` in the directory.
pub open spec fn asked_file(p: Map<Seq<char>, Seq<char>>) -> Seq<char> {
    joined_path(
        asked_dir(p),
        match (value_of(p, "path"@), value_of(p, "file"@)) {
            (Some(path), _) => path,
            (None, Some(file)) => file,
            (None, None) => "fsxfile"@,
        },
    )
}

/// The directory of a file, unless it is the one of the process.
pub open spec fn own_dir(file: Seq<char>) -> Option<Seq<char>> {
    match parent_of(file) {
        Some(dir) => if dir.len() > 0 {
            Some(dir)
        } else {
            None
        },
        None => None,
    }
}

pub fn server_target(params: &Params) -> (t: ServerTarget)
    ensures
        t.cwd@ == asked_dir(params@),
        t.fname@ == asked_file(params@),
        opt_text(t.dir) == own_dir(asked_file(params@)),
{
    let cwd = match params.get("cwd") {
        Some(dir) => dir,
        None => ".".to_string(),
    };
    let rel = match params.get("path") {
        Some(path) => path,
        None => match params.get("file") {
            Some(file) => file,
            None => "fsxfile".to_string(),
        },
    };
    let fname = join(cwd.as_str(), rel.as_str());
    let dir = match parent(fname.as_str()) {
        Some(dir) => if dir.as_str().unicode_len() > 0 {
            Some(dir)
        } else {
            None
        },
        None => None,
    };
    ServerTarget { cwd, fname, dir }
}

/// What is said where a directory of a request cannot be made.
pub fn directory_failure(target: bool, error: &str) -> (s: String)
    ensures
        s@ == (if target {
            "failed to create target directory: "@
        } else {
            "failed to create cwd: "@
        }) + error@,
{
    if target {
        "failed to create target directory: ".to_string().concat(error)
    } else {
        "failed to create cwd: ".to_string().concat(error)
    }
}

/// A run that a request asks for.
pub struct ServerRun {
    pub cli: Cli,
    pub config: Config,
    pub timeout_ms: Option<u64>,
}

pub open spec fn either(a: Option<nat>, b: Option<nat>) -> Option<nat> {
    match a {
        Some(n) => Some(n),
        None => b,
    }
}

pub open spec fn as_u64(n: Option<nat>) -> Option<u64> {
    match n {
        Some(n) => Some(n as u64),
        None => None,
    }
}

pub open spec fn wide(p: Map<Seq<char>, Seq<char>>, name: Seq<char>) -> Result<
    Option<nat>,
    Seq<char>,
> {
    number_param(p, name, u64::MAX as nat, false, false)
}

/// The options of a run that a request asks for: those of the server, with the file and the
/// parameters in their place.
pub open spec fn asked_cli(cli: CliView, p: Map<Seq<char>, Seq<char>>) -> Result<
    CliView,
    Seq<char>,
> {
    match wide(p, "inject"@) {
        Err(e) => Err(e),
        Ok(inject) => match wide(p, "numops"@) {
            Err(e) => Err(e),
            Ok(numops) => match wide(p, "n"@) {
                Err(e) => Err(e),
                Ok(n) => match number_param(p, "opnum"@, u64::MAX as nat, true, false) {
                    Err(e) => Err(e),
                    Ok(opnum) => match wide(p, "seed"@) {
                        Err(e) => Err(e),
                        Ok(seed) => match number_param(
                            p,
                            "threads"@,
                            usize::MAX as nat,
                            true,
                            false,
                        ) {
                            Err(e) => Err(e),
                            Ok(threads) => match number_param(
                                p,
                                "j"@,
                                usize::MAX as nat,
                                true,
                                false,
                            ) {
                                Err(e) => Err(e),
                                Ok(j) => Ok(
                                    CliView {
                                        fname: Some(asked_file(p)),
                                        config: None,
                                        server: None,
                                        inject: as_u64(inject),
                                        numops: Some(
                                            match either(numops, n) {
                                                Some(n) => n as u64,
                                                None => 1000,
                                            },
                                        ),
                                        opnum: match opnum {
                                            Some(n) => n as u64,
                                            None => cli.opnum,
                                        },
                                        seed: match seed {
                                            Some(n) => Some(n as u64),
                                            None => cli.seed,
                                        },
                                        threads: match either(threads, j) {
                                            Some(n) => Some(n as usize),
                                            None => cli.threads,
                                        },
                                        artifacts_dir: match value_of(p, "artifacts_dir"@) {
                                            Some(dir) => Some(dir),
                                            None => cli.artifacts_dir,
                                        },
                                        ..cli
                                    },
                                ),
                            },
                        },
                    },
                },
            },
        },
    }
}

/// The configuration of a run that a request asks for, but for the weights.
pub open spec fn asked_config(c: Config, p: Map<Seq<char>, Seq<char>>) -> Result<
    Config,
    Seq<char>,
> {
    match number_param(p, "flen"@, u32::MAX as nat, false, false) {
        Err(e) => Err(e),
        Ok(flen) => match flag_param(p, "nosizechecks"@) {
            Err(e) => Err(e),
            Ok(nosizechecks) => match number_param(p, "opsize_min"@, usize::MAX as nat, false, false) {
                Err(e) => Err(e),
                Ok(min) => match number_param(p, "opsize_max"@, usize::MAX as nat, false, false) {
                    Err(e) => Err(e),
                    Ok(max) => match number_param(
                        p,
                        "opsize_align"@,
                        usize::MAX as nat,
                        true,
                        false,
                    ) {
                        Err(e) => Err(e),
                        Ok(align) => Ok(
                            Config {
                                flen: match flen {
                                    Some(n) => Some(n as u32),
                                    None => c.flen,
                                },
                                nosizechecks: match nosizechecks {
                                    Some(b) => b,
                                    None => c.nosizechecks,
                                },
                                opsize: Opsize {
                                    min: match min {
                                        Some(n) => n as usize,
                                        None => c.opsize.min,
                                    },
                                    max: match max {
                                        Some(n) => n as usize,
                                        None => c.opsize.max,
                                    },
                                    align: match align {
                                        Some(n) => Some(n as usize),
                                        None => c.opsize.align,
                                    },
                                },
                            },
                        ),
                    },
                },
            },
        },
    }
}

/// The run that a request asks for, given what became of its weights.
pub open spec fn asked_run(
    cli: CliView,
    c: Config,
    p: Map<Seq<char>, Seq<char>>,
    weights: Result<(), Seq<char>>,
) -> Result<(CliView, Config, Option<u64>), Seq<char>> {
    match asked_cli(cli, p) {
        Err(e) => Err(e),
        Ok(cli) => match asked_config(c, p) {
            Err(e) => Err(e),
            Ok(config) => match weights {
                Err(e) => Err(e),
                Ok(_) => match config_verdict(config) {
                    Err(e) => Err(e),
                    Ok(_) => match wide(p, "timeout_ms"@) {
                        Err(e) => Err(e),
                        Ok(timeout) => Ok((cli, config, as_u64(timeout))),
                    },
                },
            },
        },
    }
}

pub open spec fn run_result_view(r: Result<ServerRun, String>) -> Result<
    (CliView, Config, Option<u64>),
    Seq<char>,
> {
    match r {
        Ok(run) => Ok((run.cli@, run.config, run.timeout_ms)),
        Err(e) => Err(e@),
    }
}

fn cli_from_params(server_cli: &Cli, params: &Params) -> (r: Result<Cli, String>)
    ensures
        (match r {
            Ok(cli) => Ok::<CliView, Seq<char>>(cli@),
            Err(e) => Err(e@),
        }) == asked_cli(server_cli@, params@),
{
    let mut cli = server_cli.clone();
    let target = server_target(params);
    cli.fname = Some(target.fname);
    cli.config = None;
    cli.server = None;
    let inject = match param_parse(params, "inject", u64::MAX, false, false) {
        Ok(n) => n,
        Err(e) => {
            return Err(e);
        },
    };
    let numops = match param_parse(params, "numops", u64::MAX, false, false) {
        Ok(n) => n,
        Err(e) => {
            return Err(e);
        },
    };
    let n = match param_parse(params, "n", u64::MAX, false, false) {
        Ok(n) => n,
        Err(e) => {
            return Err(e);
        },
    };
    let opnum = match param_parse(params, "opnum", u64::MAX, true, false) {
        Ok(n) => n,
        Err(e) => {
            return Err(e);
        },
    };
    let seed = match param_parse(params, "seed", u64::MAX, false, false) {
        Ok(n) => n,
        Err(e) => {
            return Err(e);
        },
    };
    let threads = match param_parse(params, "threads", usize::MAX as u64, true, false) {
        Ok(n) => n,
        Err(e) => {
            return Err(e);
        },
    };
    let j = match param_parse(params, "j", usize::MAX as u64, true, false) {
        Ok(n) => n,
        Err(e) => {
            return Err(e);
        },
    };
    cli.inject = inject;
    cli.numops = match numops {
        Some(n) => Some(n),
        None => match n {
            Some(n) => Some(n),
            None => Some(1000),
        },
    };
    if let Some(v) = opnum {
        cli.opnum = v;
    }
    if let Some(v) = seed {
        cli.seed = Some(v);
    }
    if let Some(v) = threads {
        cli.threads = Some(v as usize);
    } else if let Some(v) = j {
        cli.threads = Some(v as usize);
    }
    if let Some(dir) = params.get("artifacts_dir") {
        cli.artifacts_dir = Some(dir);
    }
    assert(Ok::<CliView, Seq<char>>(cli@) =~= asked_cli(server_cli@, params@));
    Ok(cli)
}

fn config_from_params(base: &Config, params: &Params) -> (r: Result<Config, String>)
    ensures
        (match r {
            Ok(c) => Ok::<Config, Seq<char>>(c),
            Err(e) => Err(e@),
        }) == asked_config(*base, params@),
{
    let mut config = *base;
    match param_parse(params, "flen", u32::MAX as u64, false, false) {
        Ok(Some(n)) => {
            config.flen = Some(n as u32);
        },
        Ok(None) => {},
        Err(e) => {
            return Err(e);
        },
    }
    match param_bool(params, "nosizechecks") {
        Ok(Some(b)) => {
            config.nosizechecks = b;
        },
        Ok(None) => {},
        Err(e) => {
            return Err(e);
        },
    }
    match param_parse(params, "opsize_min", usize::MAX as u64, false, false) {
        Ok(Some(n)) => {
            config.opsize.min = n as usize;
        },
        Ok(None) => {},
        Err(e) => {
            return Err(e);
        },
    }
    match param_parse(params, "opsize_max", usize::MAX as u64, false, false) {
        Ok(Some(n)) => {
            config.opsize.max = n as usize;
        },
        Ok(None) => {},
        Err(e) => {
            return Err(e);
        },
    }
    match param_parse(params, "opsize_align", usize::MAX as u64, true, false) {
        Ok(Some(n)) => {
            config.opsize.align = Some(n as usize);
        },
        Ok(None) => {},
        Err(e) => {
            return Err(e);
        },
    }
    Ok(config)
}

/// The run that the parameters ask for; `weights` says what became of the weights among them.
pub fn server_run_from_params(
    server_cli: &Cli,
    base_config: &Config,
    params: &Params,
    weights: Result<(), String>,
) -> (r: Result<ServerRun, String>)
    ensures
        run_result_view(r) == asked_run(
            server_cli@,
            *base_config,
            params@,
            verdict_text(weights),
        ),
{
    let cli = match cli_from_params(server_cli, params) {
        Ok(cli) => cli,
        Err(e) => {
            return Err(e);
        },
    };
    let config = match config_from_params(base_config, params) {
        Ok(config) => config,
        Err(e) => {
            return Err(e);
        },
    };
    if let Err(e) = weights {
        return Err(e);
    }
    if let Err(e) = config.validate_result() {
        return Err(e);
    }
    let timeout_ms = match param_parse(params, "timeout_ms", u64::MAX, false, false) {
        Ok(n) => n,
        Err(e) => {
            return Err(e);
        },
    };
    Ok(ServerRun { cli, config, timeout_ms })
}

/// What became of a run that a request asked for.
pub enum EndpointOutcome {
    /// The request was refused.
    Refused(String),
    /// The run ended well, with so many workers.
    Done(usize),
    Failed(String),
    TimedOut,
    Disconnected,
}

/// The product, or the largest number where it is larger.
pub open spec fn capped_product(a: u64, b: u64) -> nat {
    if a * b > u64::MAX {
        u64::MAX as nat
    } else {
        (a * b) as nat
    }
}

/// The front of a body about a run that did not end well.
pub open spec fn failed_front(workers: usize, numops: u64, elapsed_ms: u64, target: Seq<char>) -> Seq<
    char,
> {
    "{\"ok\":false,\"workers\":"@ + dec(workers as nat) + ",\"numops_per_worker\":"@ + dec(
        numops as nat,
    ) + ",\"elapsed_ms\":"@ + dec(elapsed_ms as nat) + ",\"target\":\""@ + escaped(target)
        + "\",\"error\":\""@
}

/// The response about a run.
pub open spec fn endpoint_text(
    outcome: EndpointOutcome,
    workers: usize,
    numops: u64,
    elapsed_ms: u64,
    target: Seq<char>,
) -> Seq<char> {
    match outcome {
        EndpointOutcome::Refused(e) => json_text("400 Bad Request"@, error_body(e@)),
        EndpointOutcome::Done(done) => json_text(
            "200 OK"@,
            "{\"ok\":true,\"workers\":"@ + dec(done as nat) + ",\"numops_per_worker\":"@ + dec(
                numops as nat,
            ) + ",\"total_ops_planned\":"@ + dec(capped_product(numops, done as u64))
                + ",\"elapsed_ms\":"@ + dec(elapsed_ms as nat) + ",\"target\":\""@ + escaped(target)
                + "\"}\n"@,
        ),
        EndpointOutcome::Failed(e) => json_text(
            "500 Internal Server Error"@,
            failed_front(workers, numops, elapsed_ms, target) + escaped(e@) + "\"}\n"@,
        ),
        EndpointOutcome::TimedOut => json_text(
            "504 Gateway Timeout"@,
            failed_front(workers, numops, elapsed_ms, target)
                + "timeout exceeded; run continues in background\"}\n"@,
        ),
        EndpointOutcome::Disconnected => json_text(
            "500 Internal Server Error"@,
            "{\"ok\":false,\"error\":\"worker coordinator disconnected\"}\n"@,
        ),
    }
}

fn failed_start(workers: usize, numops: u64, elapsed_ms: u64, target: &str) -> (s: String)
    ensures
        s@ == failed_front(workers, numops, elapsed_ms, target@),
{
    let mut s = "{\"ok\":false,\"workers\":".to_string();
    push_dec(&mut s, workers as u64);
    s.append(",\"numops_per_worker\":");
    push_dec(&mut s, numops);
    s.append(",\"elapsed_ms\":");
    push_dec(&mut s, elapsed_ms);
    s.append(",\"target\":\"");
    s.append(json_escape(target).as_str());
    s.concat("\",\"error\":\"")
}

/// The response to a request for a run.
pub fn run_endpoint(
    outcome: &EndpointOutcome,
    workers: usize,
    numops: u64,
    elapsed_ms: u64,
    target: &str,
) -> (out: Vec<u8>)
    ensures
        out@ == encode_utf8(endpoint_text(*outcome, workers, numops, elapsed_ms, target@)),
{
    match outcome {
        EndpointOutcome::Refused(e) => json_response(
            "400 Bad Request",
            error_text(e.as_str()).as_str(),
        ),
        EndpointOutcome::Done(done) => {
            let count: u64 = *done as u64;
            assert(numops as int * count as int <= u128::MAX) by (nonlinear_arith)
                requires
                    0 <= numops <= u64::MAX,
                    0 <= count <= u64::MAX,
            ;
            assert(numops as int * count as int >= 0) by (nonlinear_arith)
                requires
                    0 <= numops,
                    0 <= count,
            ;
            let product: u128 = numops as u128 * count as u128;
            let total: u64 = if product > u64::MAX as u128 {
                u64::MAX
            } else {
                product as u64
            };
            let mut s = "{\"ok\":true,\"workers\":".to_string();
            push_dec(&mut s, count);
            s.append(",\"numops_per_worker\":");
            push_dec(&mut s, numops);
            s.append(",\"total_ops_planned\":");
            push_dec(&mut s, total);
            s.append(",\"elapsed_ms\":");
            push_dec(&mut s, elapsed_ms);
            s.append(",\"target\":\"");
            s.append(json_escape(target).as_str());
            s.append("\"}\n");
            json_response("200 OK", s.as_str())
        },
        EndpointOutcome::Failed(e) => {
            let s = failed_start(workers, numops, elapsed_ms, target).concat(
                json_escape(e.as_str()).as_str(),
            ).concat("\"}\n");
            json_response("500 Internal Server Error", s.as_str())
        },
        EndpointOutcome::TimedOut => {
            let s = failed_start(workers, numops, elapsed_ms, target).concat(
                "timeout exceeded; run continues in background\"}\n",
            );
            json_response("504 Gateway Timeout", s.as_str())
        },
        EndpointOutcome::Disconnected => json_response(
            "500 Internal Server Error",
            "{\"ok\":false,\"error\":\"worker coordinator disconnected\"}\n",
        ),
    }
}

/// What to do about a request.
pub enum Route {
    /// There is no request.
    Ignore,
    Respond(Vec<u8>),
    Run(Params),
}

pub enum RouteView {
    Ignore,
    Respond(Seq<u8>),
    Run(Map<Seq<char>, Seq<char>>),
}

impl View for Route {
    type V = RouteView;

    open spec fn view(&self) -> RouteView {
        match *self {
            Route::Ignore => RouteView::Ignore,
            Route::Respond(bytes) => RouteView::Respond(bytes@),
            Route::Run(params) => RouteView::Run(params@),
        }
    }
}

/// The page at the root.
pub open spec fn index_text() -> Seq<char> {
    "fsx HTTP server\n\nGET /health\nGET /run?cwd=/data&file=fsxfile&n=1000&threads=4&seed=1&flen=10485760\nPOST /run with application/x-www-form-urlencoded body\n\nRun parameters: cwd, file, path, n/numops, threads/j, seed, opnum, timeout_ms, flen, nosizechecks, opsize_min, opsize_max, opsize_align, artifacts_dir, inject, and operation weights such as close_open/read/write/mapread/mapwrite/truncate/fsync/fdatasync.\n"@
}

/// The answer to a request for a run with the given query.
pub open spec fn run_route(query: Seq<char>) -> RouteView {
    match query_params(query) {
        Ok(p) => RouteView::Run(p),
        Err(e) => RouteView::Respond(encode_utf8(json_text("400 Bad Request"@, error_body(e)))),
    }
}

/// What to do about the request with the given text.
pub open spec fn routed(request: Seq<char>) -> RouteView {
    let all = lines_of(request);
    if all.len() == 0 {
        RouteView::Ignore
    } else {
        let fields = words_of(all[0]);
        if fields.len() < 2 {
            RouteView::Respond(
                encode_utf8(
                    json_text(
                        "400 Bad Request"@,
                        "{\"ok\":false,\"error\":\"bad request line\"}\n"@,
                    ),
                ),
            )
        } else {
            let (path, query) = match cut_at(fields[1], "?"@) {
                Some(pair) => pair,
                None => (fields[1], ""@),
            };
            let body = match second_piece(request, "\r\n\r\n"@) {
                Some(body) => body,
                None => ""@,
            };
            if fields[0] == "GET"@ && path == "/"@ {
                RouteView::Respond(
                    encode_utf8(
                        response_text("200 OK"@, "text/plain; charset=utf-8"@, index_text()),
                    ),
                )
            } else if fields[0] == "GET"@ && path == "/health"@ {
                RouteView::Respond(encode_utf8(json_text("200 OK"@, "{\"ok\":true}\n"@)))
            } else if fields[0] == "GET"@ && path == "/run"@ {
                run_route(query)
            } else if fields[0] == "POST"@ && path == "/run"@ {
                run_route(body)
            } else {
                RouteView::Respond(
                    encode_utf8(
                        json_text(
                            "404 Not Found"@,
                            "{\"ok\":false,\"error\":\"not found\"}\n"@,
                        ),
                    ),
                )
            }
        }
    }
}

fn route_run(query: &str) -> (r: Route)
    ensures
        r@ == run_route(query@),
{
    match parse_params(query) {
        Ok(params) => Route::Run(params),
        Err(e) => Route::Respond(
            json_response("400 Bad Request", error_text(e.as_str()).as_str()),
        ),
    }
}

/// What to do about a request.
pub fn handle_request(request: &str) -> (r: Route)
    ensures
        r@ == routed(request@),
{
    let all = lines(request);
    if all.len() == 0 {
        return Route::Ignore;
    }
    assert(texts(all@)[0] == all@[0]@);
    let fields = words(all[0].as_str());
    if fields.len() < 2 {
        return Route::Respond(
            json_response(
                "400 Bad Request",
                "{\"ok\":false,\"error\":\"bad request line\"}\n",
            ),
        );
    }
    assert(texts(fields@)[0] == fields@[0]@);
    assert(texts(fields@)[1] == fields@[1]@);
    let method = fields[0].as_str();
    let (path, query) = match split_once(fields[1].as_str(), "?") {
        Some(pair) => pair,
        None => (fields[1].clone(), "".to_string()),
    };
    let body = match second_part(request, "\r\n\r\n") {
        Some(body) => body,
        None => "".to_string(),
    };
    let get = same_text(method, "GET");
    let post = same_text(method, "POST");
    if get && same_text(path.as_str(), "/") {
        Route::Respond(
            http_response(
                "200 OK",
                "text/plain; charset=utf-8",
                "fsx HTTP server\n\nGET /health\nGET /run?cwd=/data&file=fsxfile&n=1000&threads=4&seed=1&flen=10485760\nPOST /run with application/x-www-form-urlencoded body\n\nRun parameters: cwd, file, path, n/numops, threads/j, seed, opnum, timeout_ms, flen, nosizechecks, opsize_min, opsize_max, opsize_align, artifacts_dir, inject, and operation weights such as close_open/read/write/mapread/mapwrite/truncate/fsync/fdatasync.\n",
            ),
        )
    } else if get && same_text(path.as_str(), "/health") {
        Route::Respond(json_response("200 OK", "{\"ok\":true}\n"))
    } else if get && same_text(path.as_str(), "/run") {
        route_run(query.as_str())
    } else if post && same_text(path.as_str(), "/run") {
        route_run(body.as_str())
    } else {
        Route::Respond(
            json_response("404 Not Found", "{\"ok\":false,\"error\":\"not found\"}\n"),
        )
    }
}

/// The text that `String::from_utf8_lossy` makes of bytes.
pub uninterp spec fn lossy_text(bytes: Seq<u8>) -> Seq<char>;

/// Reads bytes as text with `String::from_utf8_lossy`. Bytes in UTF-8 give the text whose form
/// they are; of others the bytes determine the text, in which replacement characters stand
/// for what is not UTF-8. Where these stand is left unsaid. Each takes three bytes, and a
/// string holds no more than an `isize` counts.
#[verifier::external_body]
fn text_of(bytes: &[u8]) -> (text: String)
    requires
        3 * bytes@.len() <= isize::MAX,
    ensures
        text@ == lossy_text(bytes@),
        valid_utf8(bytes@) ==> text@ == decode_utf8(bytes@),
{
    String::from_utf8_lossy(bytes).into_owned()
}

/// What to do about a request, from its bytes.
pub fn handle_bytes(request: &[u8]) -> (r: Route)
    requires
        3 * request@.len() <= isize::MAX,
    ensures
        r@ == routed(lossy_text(request@)),
        valid_utf8(request@) ==> r@ == routed(decode_utf8(request@)),
{
    let text = text_of(request);
    handle_request(text.as_str())
}

/// No control character stands in an escaped text.
pub proof fn law_escaped_has_no_controls(s: Seq<char>, i: int)
    requires
        0 <= i < escaped(s).len(),
    ensures
        !is_control(escaped(s)[i]),
    decreases s.len(),
{
    if s.len() > 0 {
        let before = escaped(s.drop_last());
        let last = escaped_char(s.last());
        if i < before.len() {
            law_escaped_has_no_controls(s.drop_last(), i);
        } else {
            reveal_strlit("\\\"");
            reveal_strlit("\\\\");
            reveal_strlit("\\n");
            reveal_strlit("\\r");
            reveal_strlit("\\t");
            reveal_strlit("\\u");
            assert(escaped(s)[i] == last[i - before.len()]);
            if is_control(s.last()) {
                lemma_hex_plain(s.last() as nat);
            }
        }
    }
}

proof fn lemma_hex_plain(n: nat)
    ensures
        forall|i: int| 0 <= i < hex(n).len() ==> !is_control(#[trigger] hex(n)[i]),
    decreases n,
{
    let d = (n % 16) as int;
    let c = digit_char(d);
    assert(c as int == if d < 10 {
        48 + d
    } else {
        87 + d
    });
    assert(hex(n).last() == c);
    if n >= 16 {
        lemma_hex_plain(n / 16);
        assert(hex(n).drop_last() =~= hex(n / 16));
        assert forall|i: int| 0 <= i < hex(n).len() implies !is_control(
            #[trigger] hex(n)[i],
        ) by {
            if i < hex(n).len() - 1 {
                assert(hex(n)[i] == hex(n / 16)[i]);
            }
        }
    }
}

} // verus!
