//! What is encoded is read back: Base64, JSON strings and percent-encoding.

use vstd::prelude::*;
use vstd::string::*;
use vstd::utf8::*;

use crate::http::{escaped, escaped_char};
use crate::params::{component, decoded, hex_digit, hex_pair};
use crate::sha::{base64_from, quad, six_bits};
use crate::strings::is_control;
use crate::text::{digit_char, hex, pad_left};

verus! {

/// The six bits that a character of Base64 stands for.
pub open spec fn bits_of(c: char) -> Option<int> {
    let n = c as int;
    if 65 <= n <= 90 {
        Some(n - 65)
    } else if 97 <= n <= 122 {
        Some(n - 71)
    } else if 48 <= n <= 57 {
        Some(n + 4)
    } else if n == 43 {
        Some(62)
    } else if n == 47 {
        Some(63)
    } else {
        None
    }
}

/// The bytes that four characters stand for: three, or fewer where `=` ends the group.
pub open spec fn group_bytes(q: Seq<char>) -> Option<Seq<u8>> {
    match (bits_of(q[0]), bits_of(q[1]), bits_of(q[2]), bits_of(q[3])) {
        (Some(a), Some(b), Some(c), Some(d)) => Some(
            seq![(a * 4 + b / 16) as u8, (b % 16 * 16 + c / 4) as u8, (c % 4 * 64 + d) as u8],
        ),
        (Some(a), Some(b), Some(c), None) => if q[3] == '=' {
            Some(seq![(a * 4 + b / 16) as u8, (b % 16 * 16 + c / 4) as u8])
        } else {
            None
        },
        (Some(a), Some(b), None, None) => if q[2] == '=' && q[3] == '=' {
            Some(seq![(a * 4 + b / 16) as u8])
        } else {
            None
        },
        _ => None,
    }
}

/// The bytes that a text in Base64 stands for; only its last group may be short.
pub open spec fn base64_decoded(s: Seq<char>) -> Option<Seq<u8>>
    decreases s.len(),
{
    if s.len() == 0 {
        Some(Seq::empty())
    } else if s.len() < 4 {
        None
    } else {
        match (group_bytes(s.take(4)), base64_decoded(s.skip(4))) {
            (Some(first), Some(rest)) => if first.len() == 3 || s.len() == 4 {
                Some(first + rest)
            } else {
                None
            },
            _ => None,
        }
    }
}

/// How many `=` end the Base64 form of `len` bytes.
pub open spec fn padding(len: nat) -> int {
    (3 - len % 3) % 3
}

proof fn lemma_six_bits(n: int)
    requires
        0 <= n < 64,
    ensures
        bits_of(six_bits(n)) == Some(n),
        six_bits(n) != '=',
{
}

proof fn lemma_group(chunk: Seq<u8>)
    requires
        1 <= chunk.len() <= 3,
    ensures
        group_bytes(quad(chunk)) == Some(chunk),
        quad(chunk).len() == 4,
        forall|i: int| 0 <= i < 4 ==> (#[trigger] quad(chunk)[i] == '=' <==> i > chunk.len()),
{
    let b0 = chunk[0] as int;
    let b1 = if chunk.len() > 1 {
        chunk[1] as int
    } else {
        0
    };
    let b2 = if chunk.len() > 2 {
        chunk[2] as int
    } else {
        0
    };
    lemma_six_bits(b0 / 4);
    lemma_six_bits(b0 % 4 * 16 + b1 / 16);
    lemma_six_bits(b1 % 16 * 4 + b2 / 64);
    lemma_six_bits(b2 % 64);
    assert(bits_of('=') is None);
    assert(group_bytes(quad(chunk))->0 =~= chunk);
}

proof fn lemma_base64_from(bytes: Seq<u8>, at: nat)
    requires
        at <= bytes.len(),
    ensures
        base64_decoded(base64_from(bytes, at)) == Some(bytes.skip(at as int)),
        base64_from(bytes, at).len() == (bytes.len() - at + 2) / 3 * 4,
        forall|i: int|
            0 <= i < base64_from(bytes, at).len() ==> (#[trigger] base64_from(bytes, at)[i] == '='
                <==> i >= base64_from(bytes, at).len() - padding((bytes.len() - at) as nat)),
    decreases bytes.len() - at,
{
    if at < bytes.len() {
        let end = if at + 3 < bytes.len() {
            at + 3
        } else {
            bytes.len()
        };
        let chunk = bytes.subrange(at as int, end as int);
        let rest = base64_from(bytes, end);
        let all = base64_from(bytes, at);
        lemma_base64_from(bytes, end);
        lemma_group(chunk);
        assert(all.take(4) =~= quad(chunk));
        assert(all.skip(4) =~= rest);
        assert(chunk + bytes.skip(end as int) =~= bytes.skip(at as int));
        assert forall|i: int| 0 <= i < all.len() implies (#[trigger] all[i] == '=' <==> i
            >= all.len() - padding((bytes.len() - at) as nat)) by {
            if i < 4 {
                assert(all[i] == quad(chunk)[i]);
            } else {
                assert(all[i] == rest[i - 4]);
            }
        }
    } else {
        assert(bytes.skip(at as int) =~= Seq::empty());
    }
}

/// The Base64 form of bytes stands for exactly these bytes. It has four characters for each
/// three bytes begun, and `=` stands only at its end, as often as bytes are missing from
/// the last group.
pub proof fn law_base64_is_read_back(bytes: Seq<u8>)
    ensures
        base64_decoded(base64_from(bytes, 0)) == Some(bytes),
        base64_from(bytes, 0).len() == (bytes.len() + 2) / 3 * 4,
        forall|i: int|
            0 <= i < base64_from(bytes, 0).len() ==> (#[trigger] base64_from(bytes, 0)[i] == '='
                <==> i >= base64_from(bytes, 0).len() - padding(bytes.len())),
{
    lemma_base64_from(bytes, 0);
    assert(bytes.skip(0) =~= bytes);
}

/// Different bytes have different Base64 forms.
pub proof fn law_base64_tells_bytes_apart(a: Seq<u8>, b: Seq<u8>)
    requires
        a != b,
    ensures
        base64_from(a, 0) != base64_from(b, 0),
{
    law_base64_is_read_back(a);
    law_base64_is_read_back(b);
}

/// The value of a hexadecimal digit of a JSON escape.
pub open spec fn digit_value(c: char) -> Option<int> {
    let n = c as int;
    if 48 <= n <= 57 {
        Some(n - 48)
    } else if 97 <= n <= 102 {
        Some(n - 87)
    } else if 65 <= n <= 70 {
        Some(n - 55)
    } else {
        None
    }
}

/// The number of four hexadecimal digits.
pub open spec fn four_digits(s: Seq<char>) -> Option<int> {
    match (digit_value(s[0]), digit_value(s[1]), digit_value(s[2]), digit_value(s[3])) {
        (Some(a), Some(b), Some(c), Some(d)) => Some(4096 * a + 256 * b + 16 * c + d),
        _ => None,
    }
}

/// The character behind the backslash at the start of `s`, and the length of its escape.
/// Halves of a surrogate pair, which no character is, have none.
pub open spec fn json_escape_at(s: Seq<char>) -> Option<(char, int)> {
    if s.len() < 2 {
        None
    } else if s[1] == '"' || s[1] == '\\' || s[1] == '/' {
        Some((s[1], 2))
    } else if s[1] == 'b' {
        Some((8 as char, 2))
    } else if s[1] == 'f' {
        Some((12 as char, 2))
    } else if s[1] == 'n' {
        Some(('\n', 2))
    } else if s[1] == 'r' {
        Some(('\r', 2))
    } else if s[1] == 't' {
        Some(('\t', 2))
    } else if s[1] == 'u' && s.len() >= 6 {
        match four_digits(s.subrange(2, 6)) {
            Some(n) => if 0xd800 <= n <= 0xdfff {
                None
            } else {
                Some((n as char, 6))
            },
            None => None,
        }
    } else {
        None
    }
}

/// The text that the inside of a JSON string stands for.
pub open spec fn json_read(s: Seq<char>) -> Option<Seq<char>>
    decreases s.len(),
{
    if s.len() == 0 {
        Some(Seq::empty())
    } else if s[0] == '"' || (s[0] as int) < 32 {
        None
    } else if s[0] == '\\' {
        match json_escape_at(s) {
            Some((c, n)) => if n >= 1 {
                match json_read(s.skip(n)) {
                    Some(rest) => Some(seq![c] + rest),
                    None => None,
                }
            } else {
                None
            },
            None => None,
        }
    } else {
        match json_read(s.skip(1)) {
            Some(rest) => Some(seq![s[0]] + rest),
            None => None,
        }
    }
}

/// The text of a JSON string: what stands between its quotes, read.
pub open spec fn json_string(s: Seq<char>) -> Option<Seq<char>> {
    if s.len() >= 2 && s[0] == '"' && s.last() == '"' {
        json_read(s.subrange(1, s.len() - 1))
    } else {
        None
    }
}

proof fn lemma_escaped_front(s: Seq<char>)
    requires
        s.len() > 0,
    ensures
        escaped(s) == escaped_char(s[0]) + escaped(s.skip(1)),
    decreases s.len(),
{
    if s.len() == 1 {
        assert(s.drop_last() =~= Seq::empty());
        assert(s.skip(1) =~= Seq::empty());
        assert(escaped(s) =~= escaped_char(s[0]) + escaped(s.skip(1)));
    } else {
        lemma_escaped_front(s.drop_last());
        assert(s.drop_last().skip(1) =~= s.skip(1).drop_last());
        assert(s.skip(1).last() == s.last());
        assert(escaped(s) =~= escaped_char(s[0]) + escaped(s.skip(1)));
    }
}

proof fn lemma_short_code(n: nat)
    requires
        n < 256,
    ensures
        pad_left(hex(n), 4, '0') == seq![
            '0',
            '0',
            digit_char((n / 16) as int),
            digit_char((n % 16) as int),
        ],
        four_digits(pad_left(hex(n), 4, '0')) == Some(n as int),
{
    reveal_with_fuel(hex, 2);
    let code = pad_left(hex(n), 4, '0');
    assert(code =~= seq![
        '0',
        '0',
        digit_char((n / 16) as int),
        digit_char((n % 16) as int),
    ]);
    lemma_digit(n as int / 16);
    lemma_digit(n as int % 16);
}

proof fn lemma_digit(d: int)
    requires
        0 <= d < 16,
    ensures
        digit_value(digit_char(d)) == Some(d),
        (digit_char(d) as int) < 128,
{
}

proof fn lemma_escape_read(c: char, rest: Seq<char>)
    requires
        json_read(rest) is Some,
    ensures
        json_read(escaped_char(c) + rest) == Some(seq![c] + json_read(rest)->0),
{
    reveal_strlit("\\\"");
    reveal_strlit("\\\\");
    reveal_strlit("\\n");
    reveal_strlit("\\r");
    reveal_strlit("\\t");
    reveal_strlit("\\u");
    let code = escaped_char(c);
    let all = code + rest;
    assert(all.skip(code.len() as int) =~= rest);
    if c == '"' || c == '\\' || c == '\n' || c == '\r' || c == '\t' {
        assert(json_escape_at(all) == Some((c, 2int)));
    } else if is_control(c) {
        lemma_short_code(c as nat);
        assert(all.subrange(2, 6) =~= pad_left(hex(c as nat), 4, '0'));
        assert(json_escape_at(all) == Some((c, 6int)));
    } else {
        assert(all[0] == c);
    }
}

proof fn lemma_json_read(s: Seq<char>)
    ensures
        json_read(escaped(s)) == Some(s),
    decreases s.len(),
{
    if s.len() > 0 {
        lemma_json_read(s.skip(1));
        lemma_escaped_front(s);
        lemma_escape_read(s[0], escaped(s.skip(1)));
        assert(seq![s[0]] + s.skip(1) =~= s);
    } else {
        assert(s =~= Seq::empty());
    }
}

/// An escaped text between quotes is a JSON string of exactly this text.
pub proof fn law_escaped_is_read_back(s: Seq<char>)
    ensures
        json_string(seq!['"'] + escaped(s) + seq!['"']) == Some(s),
{
    let whole = seq!['"'] + escaped(s) + seq!['"'];
    assert(whole.subrange(1, whole.len() - 1) =~= escaped(s));
    lemma_json_read(s);
}

/// A text without quotes, backslashes and control characters is its own escaped form.
pub proof fn law_plain_text_is_kept(s: Seq<char>)
    requires
        forall|i: int|
            0 <= i < s.len() ==> #[trigger] s[i] != '"' && s[i] != '\\' && !is_control(s[i]),
    ensures
        escaped(s) == s,
    decreases s.len(),
{
    if s.len() > 0 {
        assert(s.last() == s[s.len() - 1]);
        assert(s.drop_last().len() == s.len() - 1);
        assert forall|i: int| 0 <= i < s.len() - 1 implies #[trigger] s.drop_last()[i] != '"'
            && s.drop_last()[i] != '\\' && !is_control(s.drop_last()[i]) by {
            assert(s.drop_last()[i] == s[i]);
        }
        law_plain_text_is_kept(s.drop_last());
        assert(is_control('\n') && is_control('\r') && is_control('\t'));
        assert(escaped(s) =~= s);
    } else {
        assert(escaped(s) =~= s);
    }
}

/// Whether `code` is a percent-encoding of `plain`: each byte stands as `%` and two
/// hexadecimal digits of either case, or as itself where it is neither `+` nor `%`, or, a
/// space, as `+`.
pub open spec fn encodes(code: Seq<u8>, plain: Seq<u8>) -> bool
    decreases code.len(),
{
    if code.len() == 0 || plain.len() == 0 {
        code.len() == 0 && plain.len() == 0
    } else if code[0] == 43 {
        plain[0] == 32 && encodes(code.skip(1), plain.skip(1))
    } else if code[0] == 37 {
        &&& code.len() >= 3
        &&& hex_digit(code[1]) is Some
        &&& hex_digit(code[2]) is Some
        &&& plain[0] == 16 * hex_digit(code[1])->0 + hex_digit(code[2])->0
        &&& encodes(code.skip(3), plain.skip(1))
    } else {
        code[0] == plain[0] && encodes(code.skip(1), plain.skip(1))
    }
}

proof fn lemma_decoded_back(code: Seq<u8>, i: nat, out: Seq<u8>, plain: Seq<u8>)
    requires
        i <= code.len(),
        encodes(code.skip(i as int), plain),
    ensures
        decoded(code, i, out) == Ok::<Seq<u8>, Seq<char>>(out + plain),
    decreases code.len() - i,
{
    let rest = code.skip(i as int);
    if i == code.len() {
        assert(out + plain =~= out);
    } else {
        assert(rest[0] == code[i as int]);
        let first = plain[0];
        assert(out.push(first) + plain.skip(1) =~= out + plain);
        if rest[0] == 37 {
            assert(rest[1] == code[i as int + 1] && rest[2] == code[i as int + 2]);
            assert(rest.skip(3) =~= code.skip(i as int + 3));
            assert(hex_pair(code[i as int + 1], code[i as int + 2]) == Some(first));
            lemma_decoded_back(code, i + 3, out.push(first), plain.skip(1));
        } else {
            assert(rest.skip(1) =~= code.skip(i as int + 1));
            lemma_decoded_back(code, i + 1, out.push(first), plain.skip(1));
        }
    }
}

/// Every percent-encoding of a text is decoded to this text.
pub proof fn law_encoded_component_is_read_back(s: Seq<char>, t: Seq<char>)
    requires
        encodes(encode_utf8(s), encode_utf8(t)),
    ensures
        component(s) == Ok::<Seq<char>, Seq<char>>(t),
{
    let code = encode_utf8(s);
    assert(code.skip(0) =~= code);
    lemma_decoded_back(code, 0, Seq::empty(), encode_utf8(t));
    assert(Seq::<u8>::empty() + encode_utf8(t) =~= encode_utf8(t));
    encode_utf8_valid_utf8(t);
    encode_utf8_decode_utf8(t);
}

/// Bytes, each as `%` and its two hexadecimal digits.
pub open spec fn percent_encoded(plain: Seq<u8>) -> Seq<char> {
    Seq::new(
        3 * plain.len(),
        |i: int|
            if i % 3 == 0 {
                '%'
            } else if i % 3 == 1 {
                digit_char(plain[i / 3] as int / 16)
            } else {
                digit_char(plain[i / 3] as int % 16)
            },
    )
}

proof fn lemma_percent_encodes(code: Seq<u8>, plain: Seq<u8>)
    requires
        code.len() == 3 * plain.len(),
        forall|i: int|
            0 <= i < code.len() ==> #[trigger] code[i] as int == percent_encoded(plain)[i] as int,
    ensures
        encodes(code, plain),
    decreases plain.len(),
{
    if plain.len() > 0 {
        let less = plain.skip(1);
        assert forall|i: int| 0 <= i < code.skip(3).len() implies #[trigger] code.skip(
            3,
        )[i] as int == percent_encoded(less)[i] as int by {
            assert(code.skip(3)[i] == code[i + 3]);
            assert((i + 3) / 3 == i / 3 + 1 && (i + 3) % 3 == i % 3);
            assert(less[i / 3] == plain[i / 3 + 1]);
        }
        lemma_percent_encodes(code.skip(3), less);
        let high = plain[0] as int / 16;
        let low = plain[0] as int % 16;
        lemma_digit(high);
        lemma_digit(low);
        assert(code[0] as int == percent_encoded(plain)[0] as int);
        assert(code[1] as int == percent_encoded(plain)[1] as int);
        assert(code[2] as int == percent_encoded(plain)[2] as int);
        assert(hex_digit(code[1]) == Some(high));
        assert(hex_digit(code[2]) == Some(low));
    }
}

/// A text of which every byte is percent-encoded is decoded to it: every text has an
/// encoded form.
pub proof fn law_percent_encoded_is_read_back(t: Seq<char>)
    ensures
        component(percent_encoded(encode_utf8(t))) == Ok::<Seq<char>, Seq<char>>(t),
{
    let plain = encode_utf8(t);
    let s = percent_encoded(plain);
    assert forall|i: int| 0 <= i < s.len() implies (#[trigger] s[i] as int) < 128 by {
        lemma_digit(plain[i / 3] as int / 16);
        lemma_digit(plain[i / 3] as int % 16);
    }
    assert(is_ascii_chars(s));
    is_ascii_chars_encode_utf8(s);
    assert forall|i: int| 0 <= i < encode_utf8(s).len() implies #[trigger] encode_utf8(
        s,
    )[i] as int == s[i] as int by {
        assert(s[i] as u8 == encode_utf8(s)[i]);
    }
    lemma_percent_encodes(encode_utf8(s), plain);
    law_encoded_component_is_read_back(s, t);
}

} // verus!
