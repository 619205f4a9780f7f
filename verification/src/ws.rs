//! The WebSocket side of the server: handshake, frames and messages.

use vstd::prelude::*;
use vstd::string::*;
use vstd::utf8::*;

use crate::cli::{opt_text, Cli, CliView};
use crate::codec::string_from_utf8;
use crate::http::{escaped, json_escape};
use crate::oracle::{OracleStatus, StatusView};
use crate::compare::verdict_text;
use crate::params::{
    number_param, param_parse, parse_params, query_params, value_of, Params,
};
use crate::paths::{join, joined_path};
use crate::sha::{base64_encode, base64_from, be_bytes, push_be, sha1, sha1_of};
use crate::strings::{cut_at, lines, lines_of, split_once, trim, trimmed};
use crate::text::{ascii_lower, dec, lower_ascii, push_dec, same_text, texts};

verus! {

/// The key of a handshake in the lines of a request from `i` on.
pub open spec fn key_from(all: Seq<Seq<char>>, i: nat) -> Option<Seq<char>>
    decreases all.len() - i,
{
    if i >= all.len() {
        None
    } else {
        match cut_at(all[i as int], ":"@) {
            Some((name, value)) => if ascii_lower(name) == ascii_lower("Sec-WebSocket-Key"@) {
                Some(trimmed(value))
            } else {
                key_from(all, i + 1)
            },
            None => key_from(all, i + 1),
        }
    }
}

/// The key of a handshake: the value of the header `Sec-WebSocket-Key`, in any case.
pub fn websocket_key(request: &str) -> (r: Option<String>)
    ensures
        opt_text(r) == key_from(lines_of(request@), 0),
{
    let all = lines(request);
    let ghost views = texts(all@);
    let wanted = lower_ascii("Sec-WebSocket-Key");
    let total: usize = all.len();
    let mut i: usize = 0;
    while i < total
        invariant
            total == all@.len(),
            views == texts(all@),
            views == lines_of(request@),
            wanted@ == ascii_lower("Sec-WebSocket-Key"@),
            i <= total,
            key_from(views, 0) == key_from(views, i as nat),
        decreases total - i,
    {
        assert(views[i as int] == all@[i as int]@);
        if let Some((name, value)) = split_once(all[i].as_str(), ":") {
            if same_text(lower_ascii(name.as_str()).as_str(), wanted.as_str()) {
                return Some(trim(value.as_str()));
            }
        }
        i = i + 1;
    }
    None
}

/// What is hashed to accept a handshake.
pub open spec fn accepted_bytes(key: Seq<char>) -> Seq<u8> {
    encode_utf8(key) + encode_utf8("258EAFA5-E914-47DA-95CA-C5AB0DC85B11"@)
}

/// The answer to the key of a handshake.
pub fn websocket_accept(key: &str) -> (out: String)
    requires
        accepted_bytes(key@).len() * 8 <= u64::MAX,
        accepted_bytes(key@).len() + 128 <= usize::MAX,
    ensures
        out@ == base64_from(sha1_of(accepted_bytes(key@)), 0),
{
    let mut data: Vec<u8> = Vec::new();
    data.extend_from_slice(key.as_bytes());
    data.extend_from_slice("258EAFA5-E914-47DA-95CA-C5AB0DC85B11".as_bytes());
    assert(data@ =~= accepted_bytes(key@));
    let hash = sha1(data.as_slice());
    base64_encode(hash.as_slice())
}

/// The response that accepts a handshake.
pub fn handshake(accept: &str) -> (s: String)
    ensures
        s@
            == "HTTP/1.1 101 Switching Protocols\r\nUpgrade: websocket\r\nConnection: Upgrade\r\nSec-WebSocket-Accept: "@
            + accept@ + "\r\n\r\n"@,
{
    "HTTP/1.1 101 Switching Protocols\r\nUpgrade: websocket\r\nConnection: Upgrade\r\nSec-WebSocket-Accept: ".to_string().concat(
    accept).concat("\r\n\r\n")
}

/// A frame that is not masked, with its whole payload.
pub open spec fn frame_bytes(opcode: u8, payload: Seq<u8>) -> Seq<u8> {
    let first = seq![(128 + opcode) as u8];
    let len = payload.len();
    if len < 126 {
        first.push(len as u8) + payload
    } else if len <= 65535 {
        first.push(126) + be_bytes(len, 2) + payload
    } else {
        first.push(127) + be_bytes(len, 8) + payload
    }
}

/// The bytes of a frame to send.
pub fn send_frame(opcode: u8, payload: &[u8]) -> (out: Vec<u8>)
    requires
        opcode < 16,
    ensures
        out@ == frame_bytes(opcode, payload@),
{
    let len: usize = payload.len();
    let mut out: Vec<u8> = Vec::new();
    out.push(128 + opcode);
    if len < 126 {
        out.push(len as u8);
    } else if len <= 65535 {
        out.push(126);
        push_be(&mut out, len as u64, 2);
    } else {
        out.push(127);
        push_be(&mut out, len as u64, 8);
    }
    out.extend_from_slice(payload);
    assert(out@ =~= frame_bytes(opcode, payload@));
    out
}

/// The frame of a text.
pub fn send_text(text: &str) -> (out: Vec<u8>)
    ensures
        out@ == frame_bytes(1, encode_utf8(text@)),
{
    send_frame(1, text.as_bytes())
}

/// The frame that closes a connection.
pub fn send_close() -> (out: Vec<u8>)
    ensures
        out@ == frame_bytes(8, Seq::empty()),
{
    let none: Vec<u8> = Vec::new();
    assert(none@ =~= Seq::empty());
    send_frame(8, none.as_slice())
}

/// The number that bytes show, the highest first.
pub open spec fn be_number(bytes: Seq<u8>) -> nat
    decreases bytes.len(),
{
    if bytes.len() == 0 {
        0
    } else {
        be_number(bytes.drop_last()) * 256 + bytes.last() as nat
    }
}

/// How many bytes of length follow the first two of a frame.
pub open spec fn length_bytes(second: u8) -> nat {
    if second % 128 == 126 {
        2
    } else if second % 128 == 127 {
        8
    } else {
        0
    }
}

/// The length of the payload of a frame whose head is there.
pub open spec fn payload_len(b: Seq<u8>) -> nat {
    let n = length_bytes(b[1]);
    if n == 0 {
        (b[1] % 128) as nat
    } else {
        be_number(b.subrange(2, (2 + n) as int))
    }
}

/// Where the payload of a frame starts.
pub open spec fn payload_start(b: Seq<u8>) -> nat {
    2 + length_bytes(b[1]) + if b[1] >= 128 {
        4nat
    } else {
        0nat
    }
}

/// The longest payload that is read.
pub const LONGEST_PAYLOAD: u64 = 1_048_576;

/// How many bytes of a frame there must be to go on with it, given its first ones. It is
/// whole where that many are there.
pub open spec fn frame_need(b: Seq<u8>) -> Result<nat, Seq<char>> {
    if b.len() < 2 {
        Ok(2)
    } else if b.len() < 2 + length_bytes(b[1]) {
        Ok(2 + length_bytes(b[1]))
    } else if payload_len(b) > LONGEST_PAYLOAD {
        Err("websocket message is too large"@)
    } else {
        Ok(payload_start(b) + payload_len(b))
    }
}

/// The payload of a whole frame.
pub open spec fn payload_of(b: Seq<u8>) -> Seq<u8> {
    let start = payload_start(b) as int;
    Seq::new(
        payload_len(b),
        |i: int|
            if b[1] >= 128 {
                b[start + i] ^ b[start - 4 + i % 4]
            } else {
                b[start + i]
            },
    )
}

/// How many numbers `n` bytes can show.
spec fn limit(n: nat) -> nat
    decreases n,
{
    if n == 0 {
        1
    } else {
        256 * limit((n - 1) as nat)
    }
}

proof fn lemma_be_limit(bytes: Seq<u8>)
    ensures
        be_number(bytes) < limit(bytes.len()),
        bytes.len() <= 8 ==> be_number(bytes) <= u64::MAX,
    decreases bytes.len(),
{
    reveal_with_fuel(limit, 9);
    if bytes.len() > 0 {
        lemma_be_limit(bytes.drop_last());
    }
}

fn be_value(b: &Vec<u8>, from: usize, count: usize) -> (n: u64)
    requires
        count <= 8,
        from + count <= b@.len(),
    ensures
        n == be_number(b@.subrange(from as int, from + count)),
{
    let total: usize = b.len();
    let mut n: u64 = 0;
    let mut i: usize = 0;
    while i < count
        invariant
            total == b@.len(),
            from + count <= total,
            count <= 8,
            i <= count,
            n == be_number(b@.subrange(from as int, from + i)),
        decreases count - i,
    {
        let ghost next = b@.subrange(from as int, from + i + 1);
        assert(next.drop_last() =~= b@.subrange(from as int, from + i));
        proof {
            lemma_be_limit(next);
        }
        n = n * 256 + b[from + i] as u64;
        i = i + 1;
    }
    n
}

pub open spec fn need_view(r: Result<usize, String>) -> Result<nat, Seq<char>> {
    match r {
        Ok(n) => Ok(n as nat),
        Err(e) => Err(e@),
    }
}

fn extra_bytes(second: u8) -> (n: usize)
    ensures
        n == length_bytes(second),
{
    let len: u8 = second % 128;
    if len == 126 {
        2
    } else if len == 127 {
        8
    } else {
        0
    }
}

fn len_of_payload(b: &Vec<u8>) -> (n: u64)
    requires
        b@.len() >= 2,
        b@.len() >= 2 + length_bytes(b@[1]),
    ensures
        n == payload_len(b@),
{
    let extra: usize = extra_bytes(b[1]);
    if extra == 0 {
        (b[1] % 128) as u64
    } else {
        be_value(b, 2, extra)
    }
}

/// How many bytes of a frame there must be to go on with it.
pub fn frame_wanted(b: &Vec<u8>) -> (r: Result<usize, String>)
    ensures
        need_view(r) == frame_need(b@),
{
    let total: usize = b.len();
    if total < 2 {
        return Ok(2);
    }
    let extra: usize = extra_bytes(b[1]);
    if total < 2 + extra {
        return Ok(2 + extra);
    }
    let len: u64 = len_of_payload(b);
    if len > LONGEST_PAYLOAD {
        return Err("websocket message is too large".to_string());
    }
    let mask: usize = if b[1] >= 128 {
        4
    } else {
        0
    };
    Ok(2 + extra + mask + len as usize)
}

/// What a frame asks for.
pub enum WsMessage {
    Text(String),
    Close,
    /// A frame to send back.
    Pong(Vec<u8>),
    Ignore,
}

pub enum WsMessageView {
    Text(Seq<char>),
    Close,
    Pong(Seq<u8>),
    Ignore,
}

impl View for WsMessage {
    type V = WsMessageView;

    open spec fn view(&self) -> WsMessageView {
        match *self {
            WsMessage::Text(s) => WsMessageView::Text(s@),
            WsMessage::Close => WsMessageView::Close,
            WsMessage::Pong(bytes) => WsMessageView::Pong(bytes@),
            WsMessage::Ignore => WsMessageView::Ignore,
        }
    }
}

/// What a whole frame asks for.
pub open spec fn frame_message(b: Seq<u8>) -> Result<WsMessageView, Seq<char>> {
    let opcode = b[0] % 16;
    let payload = payload_of(b);
    if opcode == 1 {
        if valid_utf8(payload) {
            Ok(WsMessageView::Text(decode_utf8(payload)))
        } else {
            Err("text frame is not utf-8"@)
        }
    } else if opcode == 8 {
        Ok(WsMessageView::Close)
    } else if opcode == 9 {
        Ok(WsMessageView::Pong(frame_bytes(10, payload)))
    } else {
        Ok(WsMessageView::Ignore)
    }
}

pub open spec fn message_view(r: Result<WsMessage, String>) -> Result<WsMessageView, Seq<char>> {
    match r {
        Ok(m) => Ok(m@),
        Err(e) => Err(e@),
    }
}

/// Reads a whole frame.
pub fn read_text(b: &Vec<u8>) -> (r: Result<WsMessage, String>)
    requires
        frame_need(b@) == Ok::<nat, Seq<char>>(b@.len()),
        b@.len() >= 2,
        b@.len() >= 2 + length_bytes(b@[1]),
    ensures
        message_view(r) == frame_message(b@),
{
    let total: usize = b.len();
    let len: usize = len_of_payload(b) as usize;
    let extra: usize = extra_bytes(b[1]);
    let masked = b[1] >= 128;
    let start: usize = if masked {
        2 + extra + 4
    } else {
        2 + extra
    };
    let mut payload: Vec<u8> = Vec::new();
    let mut i: usize = 0;
    assert(payload@ =~= payload_of(b@).take(0));
    while i < len
        invariant
            total == b@.len(),
            i <= len,
            len == payload_len(b@),
            start == payload_start(b@),
            masked == (b@[1] >= 128),
            masked ==> start >= 4,
            start + len == total,
            payload@ == payload_of(b@).take(i as int),
        decreases len - i,
    {
        let byte: u8 = if masked {
            b[start + i] ^ b[start - 4 + i % 4]
        } else {
            b[start + i]
        };
        payload.push(byte);
        i = i + 1;
        assert(payload@ =~= payload_of(b@).take(i as int));
    }
    assert(payload@ =~= payload_of(b@));
    let opcode: u8 = b[0] % 16;
    if opcode == 1 {
        match string_from_utf8(payload) {
            Ok(s) => Ok(WsMessage::Text(s)),
            Err(_) => Err("text frame is not utf-8".to_string()),
        }
    } else if opcode == 8 {
        Ok(WsMessage::Close)
    } else if opcode == 9 {
        Ok(WsMessage::Pong(send_frame(10, payload.as_slice())))
    } else {
        Ok(WsMessage::Ignore)
    }
}

proof fn lemma_be_read_back(n: nat, count: nat)
    requires
        n < limit(count),
    ensures
        be_number(be_bytes(n, count)) == n,
        be_bytes(n, count).len() == count,
    decreases count,
{
    if count > 0 {
        lemma_be_read_back(n / 256, (count - 1) as nat);
        assert(be_bytes(n, count).drop_last() =~= be_bytes(n / 256, (count - 1) as nat));
    }
}

/// Frames are read as they were written: a frame of a payload that is not too long is
/// whole, and its payload and its kind are read back.
pub proof fn law_frames_read_back(opcode: u8, payload: Seq<u8>)
    requires
        opcode < 16,
        payload.len() <= LONGEST_PAYLOAD,
    ensures
        ({
            let b = frame_bytes(opcode, payload);
            frame_need(b) == Ok::<nat, Seq<char>>(b.len()) && payload_of(b) == payload && b[0] % 16
                == opcode
        }),
{
    let b = frame_bytes(opcode, payload);
    let len = payload.len();
    reveal_with_fuel(limit, 9);
    if len < 126 {
        assert(payload_len(b) == len);
    } else if len <= 65535 {
        lemma_be_read_back(len, 2);
        assert(b[1] == 126);
        assert(b.subrange(2, 4) =~= be_bytes(len, 2));
        assert(payload_len(b) == len);
    } else {
        lemma_be_read_back(len, 8);
        assert(b[1] == 127);
        assert(b.subrange(2, 10) =~= be_bytes(len, 8));
        assert(payload_len(b) == len);
    }
    assert(payload_of(b) =~= payload);
}

/// A text that was sent is the text that is received.
pub proof fn law_sent_text_is_received(text: Seq<char>)
    requires
        encode_utf8(text).len() <= LONGEST_PAYLOAD,
    ensures
        frame_message(frame_bytes(1, encode_utf8(text))) == Ok::<WsMessageView, Seq<char>>(
            WsMessageView::Text(text),
        ),
{
    law_frames_read_back(1, encode_utf8(text));
    encode_utf8_valid_utf8(text);
    encode_utf8_decode_utf8(text);
}

/// An optional text in JSON.
pub open spec fn json_option(value: Option<Seq<char>>) -> Seq<char> {
    match value {
        Some(value) => "\""@ + escaped(value) + "\""@,
        None => "null"@,
    }
}

pub fn json_string(value: Option<&str>) -> (s: String)
    ensures
        s@ == json_option(
            match value {
                Some(value) => Some(value@),
                None => None,
            },
        ),
{
    match value {
        Some(value) => "\"".to_string().concat(json_escape(value).as_str()).concat("\""),
        None => "null".to_string(),
    }
}

/// The message about an error.
pub fn error_message(error: &str) -> (s: String)
    ensures
        s@ == "{\"type\":\"error\",\"ok\":false,\"error\":\""@ + escaped(error@) + "\"}"@,
{
    "{\"type\":\"error\",\"ok\":false,\"error\":\"".to_string().concat(
        json_escape(error).as_str(),
    ).concat("\"}")
}

/// The message about a run that starts.
pub open spec fn started_text(cli: CliView) -> Seq<char> {
    let root = match cli.fname {
        Some(root) => root,
        None => ""@,
    };
    let output = match cli.oracle_output {
        Some(output) => output,
        None => root + "/oracle-report.bin"@,
    };
    let length: u64 = match cli.numops {
        Some(n) => n,
        None => 2,
    };
    "{\"type\":\"started\",\"ok\":true,\"root\":\""@ + escaped(root) + "\",\"output\":\""@
        + escaped(output) + "\",\"chain_length\":"@ + dec(length as nat) + "}"@
}

pub fn started_message(cli: &Cli) -> (s: String)
    ensures
        s@ == started_text(cli@),
{
    let root = match &cli.fname {
        Some(root) => root.clone(),
        None => "".to_string(),
    };
    let output = match &cli.oracle_output {
        Some(output) => output.clone(),
        None => root.clone().concat("/oracle-report.bin"),
    };
    let length: u64 = match cli.numops {
        Some(n) => n,
        None => 2,
    };
    let mut s = "{\"type\":\"started\",\"ok\":true,\"root\":\"".to_string();
    s.append(json_escape(root.as_str()).as_str());
    s.append("\",\"output\":\"");
    s.append(json_escape(output.as_str()).as_str());
    s.append("\",\"chain_length\":");
    push_dec(&mut s, length);
    s.concat("}")
}

/// The message about the progress of a run; `percent` is the text of a number.
pub fn progress_message(timestamp: &str, percent: &str, index: usize, total: usize, line: &str) -> (s:
    String)
    ensures
        s@ == "{\"type\":\"progress\",\"ok\":true,\"timestamp\":\""@ + escaped(timestamp@)
            + "\",\"percent\":"@ + percent@ + ",\"index\":"@ + dec(index as nat) + ",\"total\":"@
            + dec(total as nat) + ",\"line\":\""@ + escaped(line@) + "\"}"@,
{
    let mut s = "{\"type\":\"progress\",\"ok\":true,\"timestamp\":\"".to_string();
    s.append(json_escape(timestamp).as_str());
    s.append("\",\"percent\":");
    s.append(percent);
    s.append(",\"index\":");
    push_dec(&mut s, index as u64);
    s.append(",\"total\":");
    push_dec(&mut s, total as u64);
    s.append(",\"line\":\"");
    s.append(json_escape(line).as_str());
    s.concat("\"}")
}

/// The message about what an oracle run does.
pub open spec fn status_text(status: StatusView) -> Seq<char> {
    "{\"type\":\""@ + status.phase + "\",\"ok\":true,\"message\":\""@ + escaped(status.message)
        + "\",\"expected\":"@ + json_option(status.expected) + ",\"actual\":"@ + json_option(
        status.actual,
    ) + "}"@
}

fn json_of(value: &Option<String>) -> (s: String)
    ensures
        s@ == json_option(opt_text(*value)),
{
    match value {
        Some(value) => json_string(Some(value.as_str())),
        None => json_string(None),
    }
}

pub fn status_message(status: &OracleStatus) -> (s: String)
    ensures
        s@ == status_text(status@),
{
    let mut s = "{\"type\":\"".to_string();
    s.append(status.phase.as_str());
    s.append("\",\"ok\":true,\"message\":\"");
    s.append(json_escape(status.message.as_str()).as_str());
    s.append("\",\"expected\":");
    s.append(json_of(&status.expected).as_str());
    s.append(",\"actual\":");
    s.append(json_of(&status.actual).as_str());
    s.concat("}")
}

/// The options of an oracle run that a client asks for.
pub open spec fn asked_oracle(cli: CliView, p: Map<Seq<char>, Seq<char>>) -> Result<
    CliView,
    Seq<char>,
> {
    let root = match (value_of(p, "root"@), value_of(p, "cwd"@)) {
        (Some(root), _) => root,
        (None, Some(cwd)) => cwd,
        (None, None) => "/data/fsx-oracle-ws"@,
    };
    match number_param(p, "chain_length"@, u64::MAX as nat, false, true) {
        Err(e) => Err(e),
        Ok(chain) => match number_param(p, "n"@, u64::MAX as nat, false, true) {
            Err(e) => Err(e),
            Ok(n) => match number_param(p, "numops"@, u64::MAX as nat, false, true) {
                Err(e) => Err(e),
                Ok(numops) => {
                    let length: u64 = match (chain, n, numops) {
                        (Some(k), _, _) => k as u64,
                        (None, Some(k), _) => k as u64,
                        (None, None, Some(k)) => k as u64,
                        (None, None, None) => 2,
                    };
                    if length == 0 {
                        Err("chain length must be greater than zero"@)
                    } else {
                        Ok(
                            CliView {
                                server: None,
                                oracle: true,
                                orchestrated: false,
                                oracle_verify_files: None,
                                fname: Some(root),
                                numops: Some(length),
                                oracle_output: match (
                                    value_of(p, "oracle_output"@),
                                    value_of(p, "output"@),
                                ) {
                                    (Some(path), _) => Some(path),
                                    (None, Some(path)) => Some(path),
                                    (None, None) => Some(
                                        joined_path(root, "oracle-report.bin"@),
                                    ),
                                },
                                oracle_expected: match (
                                    value_of(p, "oracle_expected"@),
                                    value_of(p, "expected"@),
                                ) {
                                    (Some(path), _) => not_blank(path),
                                    (None, Some(path)) => not_blank(path),
                                    (None, None) => None,
                                },
                                ..cli
                            },
                        )
                    }
                },
            },
        },
    }
}

/// A value, unless it is blank.
pub open spec fn not_blank(s: Seq<char>) -> Option<Seq<char>> {
    if trimmed(s).len() == 0 {
        None
    } else {
        Some(s)
    }
}

fn unless_blank(s: String) -> (r: Option<String>)
    ensures
        opt_text(r) == not_blank(s@),
{
    if trim(s.as_str()).as_str().unicode_len() == 0 {
        None
    } else {
        Some(s)
    }
}

pub fn oracle_cli_from_params(server_cli: &Cli, params: &Params) -> (r: Result<Cli, String>)
    ensures
        (match r {
            Ok(cli) => Ok::<CliView, Seq<char>>(cli@),
            Err(e) => Err(e@),
        }) == asked_oracle(server_cli@, params@),
{
    let root = match params.get("root") {
        Some(root) => root,
        None => match params.get("cwd") {
            Some(cwd) => cwd,
            None => "/data/fsx-oracle-ws".to_string(),
        },
    };
    let mut cli = server_cli.clone();
    cli.server = None;
    cli.oracle = true;
    cli.orchestrated = false;
    cli.oracle_verify_files = None;
    let chain = match param_parse(params, "chain_length", u64::MAX, false, true) {
        Ok(n) => n,
        Err(e) => {
            return Err(e);
        },
    };
    let n = match param_parse(params, "n", u64::MAX, false, true) {
        Ok(n) => n,
        Err(e) => {
            return Err(e);
        },
    };
    let numops = match param_parse(params, "numops", u64::MAX, false, true) {
        Ok(n) => n,
        Err(e) => {
            return Err(e);
        },
    };
    let length: u64 = match (chain, n, numops) {
        (Some(k), _, _) => k,
        (None, Some(k), _) => k,
        (None, None, Some(k)) => k,
        (None, None, None) => 2,
    };
    if length == 0 {
        return Err("chain length must be greater than zero".to_string());
    }
    cli.numops = Some(length);
    cli.oracle_output = match params.get("oracle_output") {
        Some(path) => Some(path),
        None => match params.get("output") {
            Some(path) => Some(path),
            None => Some(join(root.as_str(), "oracle-report.bin")),
        },
    };
    cli.oracle_expected = match params.get("oracle_expected") {
        Some(path) => unless_blank(path),
        None => match params.get("expected") {
            Some(path) => unless_blank(path),
            None => None,
        },
    };
    cli.fname = Some(root);
    assert(Ok::<CliView, Seq<char>>(cli@) =~= asked_oracle(server_cli@, params@));
    Ok(cli)
}

/// Whether the key of a handshake can be hashed.
pub open spec fn short_key(key: Seq<char>) -> bool {
    &&& accepted_bytes(key).len() * 8 <= u64::MAX
    &&& accepted_bytes(key).len() + 128 <= usize::MAX
}

/// The bytes of a response that accepts a handshake.
pub open spec fn handshake_bytes(key: Seq<char>) -> Seq<u8> {
    encode_utf8(
        "HTTP/1.1 101 Switching Protocols\r\nUpgrade: websocket\r\nConnection: Upgrade\r\nSec-WebSocket-Accept: "@
            + base64_from(sha1_of(accepted_bytes(key)), 0) + "\r\n\r\n"@,
    )
}

pub open spec fn text_frame(text: Seq<char>) -> Seq<u8> {
    frame_bytes(1, encode_utf8(text))
}

pub open spec fn views(v: Seq<Vec<u8>>) -> Seq<Seq<u8>> {
    v.map_values(|b: Vec<u8>| b@)
}

/// What a connection sends first: the answer to its key, and that it is ready.
pub fn greet(key: &Option<String>) -> (r: Result<Vec<Vec<u8>>, String>)
    requires
        *key matches Some(k) ==> short_key(k@),
    ensures
        match r {
            Ok(out) => *key matches Some(k) && views(out@) == seq![
                handshake_bytes(k@),
                text_frame(
                    "{\"type\":\"ready\",\"ok\":true,\"message\":\"send URL-encoded run options\"}"@,
                ),
            ],
            Err(e) => key is None && e@ == "missing websocket key"@,
        },
{
    let key = match key {
        Some(key) => key.as_str(),
        None => {
            return Err("missing websocket key".to_string());
        },
    };
    let accept = websocket_accept(key);
    let response = handshake(accept.as_str());
    let mut first: Vec<u8> = Vec::new();
    first.extend_from_slice(response.as_str().as_bytes());
    assert(first@ =~= handshake_bytes(key@));
    let mut out: Vec<Vec<u8>> = Vec::new();
    out.push(first);
    out.push(
        send_text(
            "{\"type\":\"ready\",\"ok\":true,\"message\":\"send URL-encoded run options\"}",
        ),
    );
    assert(views(out@) =~= seq![
        handshake_bytes(key@),
        text_frame(
            "{\"type\":\"ready\",\"ok\":true,\"message\":\"send URL-encoded run options\"}"@,
        ),
    ]);
    Ok(out)
}

/// The run that a message asks for.
pub open spec fn asked_session(cli: CliView, command: Seq<char>) -> Result<CliView, Seq<char>> {
    match query_params(command) {
        Err(e) => Err(e),
        Ok(p) => asked_oracle(cli, p),
    }
}

/// Starts the run that a message asks for: its options, and the frame that says so.
pub fn start_run(server_cli: &Cli, command: &str) -> (r: Result<(Cli, Vec<u8>), String>)
    ensures
        match r {
            Ok((cli, frame)) => asked_session(server_cli@, command@) == Ok::<CliView, Seq<char>>(
                cli@,
            ) && frame@ == text_frame(started_text(cli@)),
            Err(e) => asked_session(server_cli@, command@) == Err::<CliView, Seq<char>>(e@),
        },
{
    let params = match parse_params(command) {
        Ok(params) => params,
        Err(e) => {
            return Err(e);
        },
    };
    let cli = match oracle_cli_from_params(server_cli, &params) {
        Ok(cli) => cli,
        Err(e) => {
            return Err(e);
        },
    };
    let frame = send_text(started_message(&cli).as_str());
    Ok((cli, frame))
}

/// The last frames of a connection: how its run ended, and the one that closes it.
pub open spec fn last_frames(result: Result<(), Seq<char>>) -> Seq<Seq<u8>> {
    seq![
        text_frame(
            match result {
                Ok(_) => "{\"type\":\"done\",\"ok\":true}"@,
                Err(e) => "{\"type\":\"error\",\"ok\":false,\"error\":\""@ + escaped(e) + "\"}"@,
            },
        ),
        frame_bytes(8, Seq::empty()),
    ]
}

pub fn end_run(result: &Result<(), String>) -> (out: Vec<Vec<u8>>)
    ensures
        views(out@) == last_frames(verdict_text(*result)),
{
    let text = match result {
        Ok(_) => "{\"type\":\"done\",\"ok\":true}".to_string(),
        Err(e) => error_message(e.as_str()),
    };
    let mut out: Vec<Vec<u8>> = Vec::new();
    out.push(send_text(text.as_str()));
    out.push(send_close());
    assert(views(out@) =~= last_frames(verdict_text(*result)));
    out
}

} // verus!
