//! What a client of the socket asks for and is told, and how its handshake is hashed.

use vstd::prelude::*;
use vstd::utf8::*;

use crate::cli::CliView;
use crate::http::escaped;
use crate::http_laws::{ends_in, has_char, shows, starts_in};
use crate::params::number_param;
use crate::sha::{
    be_bytes, mixed, padded, rounds_on, schedule_word, sha1_of, turned, Hash160,
};
use crate::strings::{is_white, trimmed};
use crate::text::{ascii_lower, dec};
use crate::ws::{
    asked_oracle, be_number, frame_bytes, frame_message, frame_need, json_option, key_from,
    last_frames, payload_len, payload_of, payload_start, started_text, status_text, WsMessageView,
    LONGEST_PAYLOAD,
};

verus! {

/// A masked payload is read back: where each byte of a frame was combined with one of the four
/// of its mask, in turn, the payload is what it was before.
pub proof fn law_masked_payload_is_read_back(b: Seq<u8>, plain: Seq<u8>)
    requires
        b.len() >= 2,
        b[1] >= 128,
        plain.len() == payload_len(b),
        payload_start(b) + payload_len(b) <= b.len(),
        forall|i: int|
            0 <= i < plain.len() ==> b[payload_start(b) + i] == #[trigger] plain[i]
                ^ b[payload_start(b) - 4 + i % 4],
    ensures
        payload_of(b) == plain,
{
    assert forall|i: int| 0 <= i < plain.len() implies payload_of(b)[i] == plain[i] by {
        let x = plain[i];
        let k = b[payload_start(b) - 4 + i % 4];
        assert((x ^ k) ^ k == x) by (bit_vector);
        assert(b[payload_start(b) + i] == x ^ k);
    }
    assert(payload_of(b) =~= plain);
}

/// A payload of up to a hundred and twenty-five bytes has its length in the second byte; behind
/// it stand the four bytes of the mask, where there is one, and then the payload.
pub proof fn law_short_frames(b: Seq<u8>)
    requires
        b.len() >= 2,
        b[1] % 128 < 126,
    ensures
        payload_len(b) == b[1] % 128,
        payload_start(b) == if b[1] >= 128 {
            6nat
        } else {
            2
        },
        frame_need(b) == Ok::<nat, Seq<char>>((payload_start(b) + b[1] % 128) as nat),
{
}

/// A frame whose payload is longer than a mebibyte is refused, and no other.
pub proof fn law_long_frames_are_refused(b: Seq<u8>)
    ensures
        frame_need(b) is Err ==> b.len() >= 4 && payload_len(b) > 1_048_576,
        b.len() >= 10 && payload_len(b) > 1_048_576 ==> frame_need(b) is Err,
        b.len() >= 10 && payload_len(b) <= 1_048_576 ==> frame_need(b) is Ok,
        frame_need(b) matches Ok(n) ==> n >= 2,
{
}

/// A number of two or eight bytes is shown with its highest byte first.
pub proof fn law_lengths_are_big_endian(bytes: Seq<u8>, last: u8)
    ensures
        be_number(bytes.push(last)) == 256 * be_number(bytes) + last,
        be_number(Seq::empty()) == 0,
{
    assert(bytes.push(last).drop_last() =~= bytes);
}

/// A ping is answered with its own payload, a request to close closes, a text is taken as it
/// is, and all else is passed over.
pub proof fn law_frames_are_answered(b: Seq<u8>)
    requires
        b.len() >= 2,
        payload_len(b) <= LONGEST_PAYLOAD,
    ensures
        b[0] % 16 == 9 ==> (frame_message(b) matches Ok(WsMessageView::Pong(reply)) && payload_of(
            reply,
        ) == payload_of(b) && reply[0] == 0x8a && frame_need(reply) == Ok::<nat, Seq<char>>(
            reply.len(),
        )),
        b[0] % 16 == 8 ==> frame_message(b) == Ok::<WsMessageView, Seq<char>>(WsMessageView::Close),
        b[0] % 16 == 1 ==> (frame_message(b) is Ok <==> valid_utf8(payload_of(b))),
        b[0] % 16 == 1 && valid_utf8(payload_of(b)) ==> (frame_message(b) matches Ok(
            WsMessageView::Text(text),
        ) && encode_utf8(text) == payload_of(b)),
        b[0] % 16 != 1 && b[0] % 16 != 8 && b[0] % 16 != 9 ==> frame_message(b) == Ok::<
            WsMessageView,
            Seq<char>,
        >(WsMessageView::Ignore),
{
    crate::ws::law_frames_read_back(10, payload_of(b));
    if valid_utf8(payload_of(b)) {
        decode_utf8_encode_utf8(payload_of(b));
    }
}

/// The last two frames tell how the run ended and close the connection.
pub proof fn law_connections_end_with_their_result(result: Result<(), Seq<char>>)
    requires
        result matches Err(e) ==> last_frames(result)[0].len() <= 1_000_000,
    ensures
        last_frames(result).len() == 2,
        frame_message(last_frames(result)[1]) == Ok::<WsMessageView, Seq<char>>(
            WsMessageView::Close,
        ),
        frame_message(last_frames(result)[0]) matches Ok(WsMessageView::Text(text)) && (if result
            is Ok {
            text == "{\"type\":\"done\",\"ok\":true}"@
        } else {
            starts_in(text, "{\"type\":\"error\",\"ok\":false,\"error\":\""@) && ends_in(
                text,
                crate::http::escaped(result->Err_0) + "\"}"@,
            )
        }),
{
    crate::ws::law_frames_read_back(8, Seq::empty());
    match result {
        Ok(_) => {
            let text = "{\"type\":\"done\",\"ok\":true}"@;
            reveal_strlit("{\"type\":\"done\",\"ok\":true}");
            is_ascii_chars_encode_utf8(text);
            crate::ws::law_sent_text_is_received(text);
        },
        Err(e) => {
            let front = "{\"type\":\"error\",\"ok\":false,\"error\":\""@;
            let tail = crate::http::escaped(e) + "\"}"@;
            let text = front + crate::http::escaped(e) + "\"}"@;
            assert(text =~= front + tail);
            assert(text.take(front.len() as int) =~= front);
            assert(text.skip(text.len() - tail.len()) =~= tail);
            assert(encode_utf8(text).len() <= frame_bytes(1, encode_utf8(text)).len());
            crate::ws::law_sent_text_is_received(text);
        },
    }
}

/// The key of a handshake is the value of the first line that is called so, whatever the case
/// of its letters, without white space around it.
pub proof fn law_key_is_that_of_its_line(
    all: Seq<Seq<char>>,
    i: nat,
    k: int,
    name: Seq<char>,
    value: Seq<char>,
)
    requires
        i <= k < all.len(),
        all[k] == name + seq![':'] + value,
        !has_char(name, ':'),
        ascii_lower(name) == "sec-websocket-key"@,
        forall|j: int| i <= j < k ==> !names_key(#[trigger] all[j]),
    ensures
        key_from(all, i) == Some(trimmed(value)),
    decreases k - i,
{
    reveal_strlit(":");
    reveal_strlit("Sec-WebSocket-Key");
    reveal_strlit("sec-websocket-key");
    assert(":"@ =~= seq![':']);
    assert(ascii_lower("Sec-WebSocket-Key"@) =~= "sec-websocket-key"@);
    if i == k {
        crate::http_laws::lemma_cut_at_char(name, ':', value);
    } else {
        assert(!names_key(all[i as int]));
        law_key_is_that_of_its_line(all, i + 1, k, name, value);
    }
}

/// Whether the line has the key of a handshake.
pub open spec fn names_key(line: Seq<char>) -> bool {
    crate::strings::cut_at(line, ":"@) matches Some((name, _)) && ascii_lower(name)
        == "sec-websocket-key"@
}

/// A request without such a line has no key.
pub proof fn law_no_key_without_its_line(all: Seq<Seq<char>>, i: nat)
    requires
        forall|j: int| i <= j < all.len() ==> !names_key(#[trigger] all[j]),
    ensures
        key_from(all, i) is None,
    decreases all.len() - i,
{
    reveal_strlit("Sec-WebSocket-Key");
    reveal_strlit("sec-websocket-key");
    assert(ascii_lower("Sec-WebSocket-Key"@) =~= "sec-websocket-key"@);
    if i < all.len() {
        assert(!names_key(all[i as int]));
        law_no_key_without_its_line(all, i + 1);
    }
}

/// Whether the parameter is there and has more than white space.
pub open spec fn given(p: Map<Seq<char>, Seq<char>>, name: Seq<char>) -> bool {
    p.dom().contains(name) && exists|i: int|
        0 <= i < p[name].len() && !is_white(#[trigger] p[name][i])
}

proof fn lemma_blank(s: Seq<char>)
    ensures
        trimmed(s).len() == 0 <==> forall|i: int| 0 <= i < s.len() ==> is_white(#[trigger] s[i]),
{
    crate::text_laws::law_trimmed_has_no_white_ends(s);
    let (i, j) = choose|i: int, j: int|
        0 <= i <= j <= s.len() && trimmed(s) == #[trigger] s.subrange(i, j) && (forall|k: int|
            0 <= k < i || j <= k < s.len() ==> is_white(#[trigger] s[k]));
    if trimmed(s).len() > 0 {
        assert(trimmed(s)[0] == s[i]);
        assert(!is_white(s[i]));
    }
}

proof fn lemma_given_number(p: Map<Seq<char>, Seq<char>>, name: Seq<char>)
    ensures
        match number_param(p, name, u64::MAX as nat, false, true) {
            Ok(Some(n)) => given(p, name) && shows(p[name], n as int) && n <= u64::MAX && forall|
                m: int,
            | #[trigger] shows(p[name], m) ==> m == n,
            Ok(None) => !given(p, name),
            Err(_) => given(p, name) && forall|n: int|
                #[trigger] shows(p[name], n) ==> n > u64::MAX,
        },
{
    if p.dom().contains(name) {
        lemma_blank(p[name]);
        crate::http_laws::law_decimal_numbers_are_read(p[name], u64::MAX as nat);
        if let Ok(Some(n)) = number_param(p, name, u64::MAX as nat, false, true) {
            assert forall|m: int| #[trigger] shows(p[name], m) implies m == n by {
                crate::http_laws::lemma_shows_one(p[name], n as int, m);
            }
        }
    }
}

/// A client's run has chains of the length that it asks for: `chain_length`, whatever else it
/// gives; without it `n`; without both `numops`; with none of them two. Blank ones do not
/// count, and zero is refused.
pub proof fn law_asked_chain_length(cli: CliView, p: Map<Seq<char>, Seq<char>>, n: int)
    ensures
        asked_oracle(cli, p) matches Ok(run) ==> {
            &&& given(p, "chain_length"@) && shows(p["chain_length"@], n) ==> run.numops == Some(
                n as u64,
            ) && 0 < n <= u64::MAX
            &&& !given(p, "chain_length"@) && given(p, "n"@) && shows(p["n"@], n) ==> run.numops
                == Some(n as u64) && 0 < n <= u64::MAX
            &&& !given(p, "chain_length"@) && !given(p, "n"@) && given(p, "numops"@) && shows(
                p["numops"@],
                n,
            ) ==> run.numops == Some(n as u64) && 0 < n <= u64::MAX
            &&& !given(p, "chain_length"@) && !given(p, "n"@) && !given(p, "numops"@)
                ==> run.numops == Some(2u64)
        },
        given(p, "chain_length"@) && shows(p["chain_length"@], 0) ==> asked_oracle(cli, p) is Err,
        !given(p, "chain_length"@) && !given(p, "n"@) && !given(p, "numops"@) ==> asked_oracle(
            cli,
            p,
        ) is Ok,
{
    lemma_given_number(p, "chain_length"@);
    lemma_given_number(p, "n"@);
    lemma_given_number(p, "numops"@);
}

/// A client's run works at `root`, or else at `cwd`, or else at a directory of its own; it
/// writes its report where it is asked to, or under that directory, and compares it with the
/// report that is named, if one is and its name is not blank. It is a run of the oracle alone.
pub proof fn law_asked_places(cli: CliView, p: Map<Seq<char>, Seq<char>>)
    requires
        asked_oracle(cli, p) is Ok,
    ensures
        ({
            let run = asked_oracle(cli, p)->Ok_0;
            let expected = if p.dom().contains("oracle_expected"@) {
                "oracle_expected"@
            } else {
                "expected"@
            };
            &&& run.oracle && !run.orchestrated && run.server is None
                && run.oracle_verify_files is None
            &&& run.fname is Some
            &&& p.dom().contains("root"@) ==> run.fname == Some(p["root"@])
            &&& !p.dom().contains("root"@) && p.dom().contains("cwd"@) ==> run.fname == Some(
                p["cwd"@],
            )
            &&& !p.dom().contains("root"@) && !p.dom().contains("cwd"@) ==> run.fname == Some(
                "/data/fsx-oracle-ws"@,
            )
            &&& run.oracle_output is Some
            &&& p.dom().contains("oracle_output"@) ==> run.oracle_output == Some(
                p["oracle_output"@],
            )
            &&& !p.dom().contains("oracle_output"@) && p.dom().contains("output"@)
                ==> run.oracle_output == Some(p["output"@])
            &&& !p.dom().contains("oracle_output"@) && !p.dom().contains("output"@)
                ==> run.oracle_output == Some(
                crate::paths::joined_path(run.fname->0, "oracle-report.bin"@),
            )
            &&& given(p, expected) ==> run.oracle_expected == Some(p[expected])
            &&& !given(p, expected) ==> run.oracle_expected is None
            &&& run.seed == cli.seed && run.opnum == cli.opnum && run.oracle_fixtures
                == cli.oracle_fixtures && run.oracle_case_start == cli.oracle_case_start
                && run.oracle_case_count == cli.oracle_case_count && run.oracle_sample_count
                == cli.oracle_sample_count
        }),
{
    if p.dom().contains("oracle_expected"@) {
        lemma_blank(p["oracle_expected"@]);
    }
    if p.dom().contains("expected"@) {
        lemma_blank(p["expected"@]);
    }
}

/// A message is filled up to whole blocks: itself, an end mark, zeros, fewer than a block, and
/// the number of its bits.
pub proof fn law_padded_messages(input: Seq<u8>, i: int)
    ensures
        padded(input).len() % 64 == 0,
        padded(input).len() > input.len() + 8,
        padded(input).len() <= input.len() + 72,
        padded(input).take(input.len() as int) == input,
        padded(input)[input.len() as int] == 0x80,
        input.len() < i < padded(input).len() - 8 ==> padded(input)[i] == 0,
        padded(input).skip(padded(input).len() - 8) == be_bytes(8 * input.len(), 8),
{
    lemma_be_len(8 * input.len(), 8);
    lemma_be_len(input.len() * 8, 8);
    assert(padded(input).take(input.len() as int) =~= input);
    assert(padded(input).skip(padded(input).len() - 8) =~= be_bytes(8 * input.len(), 8));
}

proof fn lemma_be_len(n: nat, count: nat)
    ensures
        be_bytes(n, count).len() == count,
    decreases count,
{
    if count > 0 {
        lemma_be_len(n / 256, (count - 1) as nat);
    }
}

/// A hash has twenty bytes.
pub proof fn law_hashes_have_twenty_bytes(input: Seq<u8>)
    ensures
        sha1_of(input).len() == 20,
{
    let h = crate::sha::blocks_hash(padded(input), padded(input).len() / 64);
    lemma_be_len(h.a as nat, 4);
    lemma_be_len(h.b as nat, 4);
    lemma_be_len(h.c as nat, 4);
    lemma_be_len(h.d as nat, 4);
    lemma_be_len(h.e as nat, 4);
}

/// Bits that are turned round come back.
pub proof fn law_turned_bits_come_back(x: u32)
    ensures
        turned(turned(x, 1), 31) == x,
        turned(turned(x, 5), 27) == x,
        turned(turned(x, 30), 2) == x,
{
    assert(((x << 1u32) | (x >> 31u32)) << 31u32 | (((x << 1u32) | (x >> 31u32)) >> 1u32) == x)
        by (bit_vector);
    assert(((x << 5u32) | (x >> 27u32)) << 27u32 | (((x << 5u32) | (x >> 27u32)) >> 5u32) == x)
        by (bit_vector);
    assert(((x << 30u32) | (x >> 2u32)) << 2u32 | (((x << 30u32) | (x >> 2u32)) >> 30u32) == x)
        by (bit_vector);
}

/// The first rounds take a bit of `c` where `b` has one and else of `d`, the third ones the bit
/// that most of the three have, and the others whether an odd number of them has it.
pub proof fn law_rounds_mix_bits(i: int, b: u32, c: u32, d: u32)
    ensures
        0 <= i < 20 ==> mixed(i, b, c, d) & b == c & b && mixed(i, b, c, d) & !b == d & !b,
        40 <= i < 60 ==> (b == c ==> mixed(i, b, c, d) == b) && (b == d ==> mixed(i, b, c, d) == b)
            && (c == d ==> mixed(i, b, c, d) == c) && mixed(i, b, c, d) == mixed(i, c, d, b),
        20 <= i < 40 || 60 <= i < 80 ==> mixed(i, b, c, d) ^ b ^ c == d,
{
    assert(((b & c) | ((!b) & d)) & b == c & b) by (bit_vector);
    assert(((b & c) | ((!b) & d)) & !b == d & !b) by (bit_vector);
    assert(b == c ==> (b & c) | (b & d) | (c & d) == b) by (bit_vector);
    assert(b == d ==> (b & c) | (b & d) | (c & d) == b) by (bit_vector);
    assert(c == d ==> (b & c) | (b & d) | (c & d) == c) by (bit_vector);
    assert((b & c) | (b & d) | (c & d) == (c & d) | (c & b) | (d & b)) by (bit_vector);
    assert((b ^ c ^ d) ^ b ^ c == d) by (bit_vector);
}

/// What a round makes stays for four more, moved on by one each time and turned once.
pub proof fn law_rounds_move_their_words(data: Seq<u8>, at: int, h: Hash160, n: nat)
    ensures
        rounds_on(data, at, h, n + 1).b == rounds_on(data, at, h, n).a,
        rounds_on(data, at, h, n + 4).e == turned(rounds_on(data, at, h, n).a, 30),
{
    reveal_with_fuel(rounds_on, 6);
}

/// The words of a block are its own, the highest byte first, and behind them each is made of
/// four earlier ones.
pub proof fn law_words_of_a_block(data: Seq<u8>, at: int, t: nat)
    ensures
        t < 16 ==> schedule_word(data, at, t) == ((data[at + 4 * t] * 256 + data[at + 4 * t + 1])
            * 256 + data[at + 4 * t + 2]) * 256 + data[at + 4 * t + 3],
        t >= 16 ==> turned(schedule_word(data, at, t), 31) == schedule_word(
            data,
            at,
            (t - 3) as nat,
        ) ^ schedule_word(data, at, (t - 8) as nat) ^ schedule_word(data, at, (t - 14) as nat)
            ^ schedule_word(data, at, (t - 16) as nat),
{
    if t >= 16 {
        law_turned_bits_come_back(
            schedule_word(data, at, (t - 3) as nat) ^ schedule_word(data, at, (t - 8) as nat)
                ^ schedule_word(data, at, (t - 14) as nat) ^ schedule_word(
                data,
                at,
                (t - 16) as nat,
            ),
        );
    }
}

/// A client is told where its run works, where the report goes and how long its chains are.
pub proof fn law_clients_are_told_of_their_run(cli: CliView, p: Map<Seq<char>, Seq<char>>)
    requires
        asked_oracle(cli, p) is Ok,
    ensures
        ({
            let run = asked_oracle(cli, p)->Ok_0;
            &&& starts_in(
                started_text(run),
                "{\"type\":\"started\",\"ok\":true,\"root\":\""@ + escaped(run.fname->0)
                    + "\",\"output\":\""@ + escaped(run.oracle_output->0),
            )
            &&& ends_in(
                started_text(run),
                "\",\"chain_length\":"@ + dec(run.numops->0 as nat) + "}"@,
            )
        }),
{
    let run = asked_oracle(cli, p)->Ok_0;
    law_asked_places(cli, p);
    law_asked_chain_length(cli, p, 0);
    assert(run.numops is Some);
    let text = started_text(run);
    let front = "{\"type\":\"started\",\"ok\":true,\"root\":\""@ + escaped(run.fname->0)
        + "\",\"output\":\""@ + escaped(run.oracle_output->0);
    let tail = "\",\"chain_length\":"@ + dec(run.numops->0 as nat) + "}"@;
    assert(text.take(front.len() as int) =~= front);
    assert(text.skip(text.len() - tail.len()) =~= tail);
}

/// A status is told with its kind and its message.
pub proof fn law_clients_are_told_the_status(status: crate::oracle::StatusView)
    ensures
        starts_in(
            status_text(status),
            "{\"type\":\""@ + status.phase + "\",\"ok\":true,\"message\":\""@ + escaped(
                status.message,
            ),
        ),
        ends_in(
            status_text(status),
            "\",\"expected\":"@ + json_option(status.expected) + ",\"actual\":"@ + json_option(
                status.actual,
            ) + "}"@,
        ),
{
    let text = status_text(status);
    let front = "{\"type\":\""@ + status.phase + "\",\"ok\":true,\"message\":\""@ + escaped(
        status.message,
    );
    let tail = "\",\"expected\":"@ + json_option(status.expected) + ",\"actual\":"@ + json_option(
        status.actual,
    ) + "}"@;
    assert(text.take(front.len() as int) =~= front);
    assert(text.skip(text.len() - tail.len()) =~= tail);
}

} // verus!
