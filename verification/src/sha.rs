//! SHA-1 and Base64, as a WebSocket handshake needs them.

use vstd::prelude::*;
use vstd::string::*;

verus! {

/// `x` with its bits turned left by `n`.
pub open spec fn turned(x: u32, n: u32) -> u32 {
    (x << n) | (x >> ((32 - n) as u32))
}

fn rotate_left(x: u32, n: u32) -> (r: u32)
    requires
        0 < n < 32,
    ensures
        r == turned(x, n),
{
    (x << n) | (x >> (32 - n))
}

/// The sum of two words, without its overflow.
pub open spec fn plus(a: u32, b: u32) -> u32 {
    ((a + b) % 0x1_0000_0000) as u32
}

fn plus_of(a: u32, b: u32) -> (r: u32)
    ensures
        r == plus(a, b),
{
    a.wrapping_add(b)
}

/// The five words of a hash.
#[derive(Clone, Copy, Debug, PartialEq, Eq, Structural)]
pub struct Hash160 {
    pub a: u32,
    pub b: u32,
    pub c: u32,
    pub d: u32,
    pub e: u32,
}

/// The words with which a hash starts.
pub open spec fn first_hash() -> Hash160 {
    Hash160 {
        a: 0x67452301u32,
        b: 0xefcdab89u32,
        c: 0x98badcfeu32,
        d: 0x10325476u32,
        e: 0xc3d2e1f0u32,
    }
}

/// The function of round `i`.
pub open spec fn mixed(i: int, b: u32, c: u32, d: u32) -> u32 {
    if i < 20 {
        (b & c) | ((!b) & d)
    } else if i < 40 {
        b ^ c ^ d
    } else if i < 60 {
        (b & c) | (b & d) | (c & d)
    } else {
        b ^ c ^ d
    }
}

/// The constant of round `i`.
pub open spec fn round_constant(i: int) -> u32 {
    if i < 20 {
        0x5a827999u32
    } else if i < 40 {
        0x6ed9eba1u32
    } else if i < 60 {
        0x8f1bbcdcu32
    } else {
        0xca62c1d6u32
    }
}

/// A big-endian word.
pub open spec fn be_word(a: u8, b: u8, c: u8, d: u8) -> u32 {
    (a * 0x100_0000 + b * 0x1_0000 + c * 0x100 + d) as u32
}

/// Word `t` of the schedule of the block that starts at `at`.
pub open spec fn schedule_word(data: Seq<u8>, at: int, t: nat) -> u32
    decreases t,
{
    if t < 16 {
        be_word(
            data[at + 4 * t],
            data[at + 4 * t + 1],
            data[at + 4 * t + 2],
            data[at + 4 * t + 3],
        )
    } else {
        turned(
            schedule_word(data, at, (t - 3) as nat) ^ schedule_word(data, at, (t - 8) as nat)
                ^ schedule_word(data, at, (t - 14) as nat) ^ schedule_word(
                data,
                at,
                (t - 16) as nat,
            ),
            1,
        )
    }
}

/// The words after the first `n` rounds on a block.
pub open spec fn rounds_on(data: Seq<u8>, at: int, h: Hash160, n: nat) -> Hash160
    decreases n,
{
    if n == 0 {
        h
    } else {
        let v = rounds_on(data, at, h, (n - 1) as nat);
        let i = n - 1;
        Hash160 {
            a: plus(
                plus(
                    plus(plus(turned(v.a, 5), mixed(i, v.b, v.c, v.d)), v.e),
                    round_constant(i),
                ),
                schedule_word(data, at, i as nat),
            ),
            b: v.a,
            c: turned(v.b, 30),
            d: v.c,
            e: v.d,
        }
    }
}

/// The hash after the block at `at`.
pub open spec fn block_hash(data: Seq<u8>, at: int, h: Hash160) -> Hash160 {
    let v = rounds_on(data, at, h, 80);
    Hash160 {
        a: plus(h.a, v.a),
        b: plus(h.b, v.b),
        c: plus(h.c, v.c),
        d: plus(h.d, v.d),
        e: plus(h.e, v.e),
    }
}

/// The hash of the first `n` blocks.
pub open spec fn blocks_hash(data: Seq<u8>, n: nat) -> Hash160
    decreases n,
{
    if n == 0 {
        first_hash()
    } else {
        block_hash(data, 64 * (n - 1), blocks_hash(data, (n - 1) as nat))
    }
}

/// The `count` lowest bytes of `n`, the highest of them first.
pub open spec fn be_bytes(n: nat, count: nat) -> Seq<u8>
    decreases count,
{
    if count == 0 {
        Seq::empty()
    } else {
        be_bytes(n / 256, (count - 1) as nat).push((n % 256) as u8)
    }
}

/// How many zeros stand behind the end mark of `len` bytes.
pub open spec fn zeros_after(len: nat) -> nat {
    ((119 - len % 64) % 64) as nat
}

/// A message filled up to whole blocks: an end mark, zeros and the length in bits.
pub open spec fn padded(input: Seq<u8>) -> Seq<u8> {
    input.push(0x80u8) + Seq::new(zeros_after(input.len()), |i: int| 0u8) + be_bytes(
        input.len() * 8,
        8,
    )
}

pub open spec fn hash_bytes(h: Hash160) -> Seq<u8> {
    be_bytes(h.a as nat, 4) + be_bytes(h.b as nat, 4) + be_bytes(h.c as nat, 4) + be_bytes(
        h.d as nat,
        4,
    ) + be_bytes(h.e as nat, 4)
}

/// The SHA-1 hash of a message.
pub open spec fn sha1_of(input: Seq<u8>) -> Seq<u8> {
    hash_bytes(blocks_hash(padded(input), padded(input).len() / 64))
}

proof fn lemma_be_len(n: nat, count: nat)
    ensures
        be_bytes(n, count).len() == count,
    decreases count,
{
    if count > 0 {
        lemma_be_len(n / 256, (count - 1) as nat);
    }
}

/// Appends the `count` lowest bytes of `n`.
pub fn push_be(out: &mut Vec<u8>, n: u64, count: usize)
    requires
        count <= 8,
    ensures
        final(out)@ == old(out)@ + be_bytes(n as nat, count as nat),
    decreases count,
{
    if count == 0 {
        assert(out@ =~= old(out)@ + be_bytes(n as nat, 0));
    } else {
        let ghost before = out@;
        push_be(out, n / 256, count - 1);
        out.push((n % 256) as u8);
        assert(out@ =~= before + be_bytes(n as nat, count as nat));
    }
}

fn pad(input: &[u8]) -> (data: Vec<u8>)
    requires
        input@.len() * 8 <= u64::MAX,
        input@.len() + 128 <= usize::MAX,
    ensures
        data@ == padded(input@),
        data@.len() % 64 == 0,
{
    let bit_len: u64 = input.len() as u64 * 8;
    let mut data: Vec<u8> = Vec::new();
    data.extend_from_slice(input);
    assert(data@ =~= input@);
    data.push(0x80);
    let ghost marked = data@;
    let ghost zeros = zeros_after(input@.len());
    let mut k: usize = 0;
    assert(data@ =~= marked + Seq::new(0, |i: int| 0u8));
    while data.len() % 64 != 56
        invariant
            marked == input@.push(0x80u8),
            zeros == zeros_after(input@.len()),
            k <= zeros,
            zeros < 64,
            data@ == marked + Seq::new(k as nat, |i: int| 0u8),
            input@.len() + 128 <= usize::MAX,
        decreases zeros - k,
    {
        assert(data@.len() == input@.len() + 1 + k);
        data.push(0);
        assert(k < zeros);
        k = k + 1;
        assert(data@ =~= marked + Seq::new(k as nat, |i: int| 0u8));
    }
    assert(data@.len() == input@.len() + 1 + k);
    assert(k == zeros);
    proof {
        lemma_be_len(bit_len as nat, 8);
    }
    push_be(&mut data, bit_len, 8);
    assert(data@ =~= padded(input@));
    data
}

fn mix(i: usize, b: u32, c: u32, d: u32) -> (r: u32)
    ensures
        r == mixed(i as int, b, c, d),
{
    if i < 20 {
        (b & c) | ((!b) & d)
    } else if i < 40 {
        b ^ c ^ d
    } else if i < 60 {
        (b & c) | (b & d) | (c & d)
    } else {
        b ^ c ^ d
    }
}

fn constant(i: usize) -> (r: u32)
    ensures
        r == round_constant(i as int),
{
    if i < 20 {
        0x5a827999
    } else if i < 40 {
        0x6ed9eba1
    } else if i < 60 {
        0x8f1bbcdc
    } else {
        0xca62c1d6
    }
}

fn schedule(data: &Vec<u8>, at: usize) -> (w: Vec<u32>)
    requires
        at + 64 <= data@.len(),
    ensures
        w@ == Seq::new(80, |t: int| schedule_word(data@, at as int, t as nat)),
{
    let total: usize = data.len();
    let mut w: Vec<u32> = Vec::new();
    let mut t: usize = 0;
    while t < 80
        invariant
            total == data@.len(),
            at + 64 <= total,
            t <= 80,
            w@ == Seq::new(t as nat, |t: int| schedule_word(data@, at as int, t as nat)),
        decreases 80 - t,
    {
        let word: u32 = if t < 16 {
            let p: usize = at + 4 * t;
            data[p] as u32 * 0x100_0000 + data[p + 1] as u32 * 0x1_0000 + data[p + 2] as u32
                * 0x100 + data[p + 3] as u32
        } else {
            rotate_left(w[t - 3] ^ w[t - 8] ^ w[t - 14] ^ w[t - 16], 1)
        };
        assert(word == schedule_word(data@, at as int, t as nat));
        w.push(word);
        t = t + 1;
        assert(w@ =~= Seq::new(t as nat, |t: int| schedule_word(data@, at as int, t as nat)));
    }
    w
}

fn add_block(data: &Vec<u8>, at: usize, h: Hash160) -> (r: Hash160)
    requires
        at + 64 <= data@.len(),
    ensures
        r == block_hash(data@, at as int, h),
{
    let w = schedule(data, at);
    let mut v = h;
    let mut i: usize = 0;
    while i < 80
        invariant
            i <= 80,
            w@ == Seq::new(80, |t: int| schedule_word(data@, at as int, t as nat)),
            v == rounds_on(data@, at as int, h, i as nat),
        decreases 80 - i,
    {
        let f: u32 = mix(i, v.b, v.c, v.d);
        let sum: u32 = plus_of(
            plus_of(plus_of(plus_of(rotate_left(v.a, 5), f), v.e), constant(i)),
            w[i],
        );
        v = Hash160 { a: sum, b: v.a, c: rotate_left(v.b, 30), d: v.c, e: v.d };
        i = i + 1;
    }
    Hash160 {
        a: plus_of(h.a, v.a),
        b: plus_of(h.b, v.b),
        c: plus_of(h.c, v.c),
        d: plus_of(h.d, v.d),
        e: plus_of(h.e, v.e),
    }
}

/// Hashes a message.
pub fn sha1(input: &[u8]) -> (out: Vec<u8>)
    requires
        input@.len() * 8 <= u64::MAX,
        input@.len() + 128 <= usize::MAX,
    ensures
        out@ == sha1_of(input@),
        out@.len() == 20,
{
    let data = pad(input);
    let total: usize = data.len() / 64;
    let mut h = Hash160 {
        a: 0x67452301,
        b: 0xefcdab89,
        c: 0x98badcfe,
        d: 0x10325476,
        e: 0xc3d2e1f0,
    };
    let mut k: usize = 0;
    while k < total
        invariant
            k <= total,
            64 * total == data@.len(),
            h == blocks_hash(data@, k as nat),
        decreases total - k,
    {
        let len: usize = data.len();
        assert(64 * k + 64 <= len);
        h = add_block(&data, 64 * k, h);
        k = k + 1;
    }
    let mut out: Vec<u8> = Vec::new();
    push_be(&mut out, h.a as u64, 4);
    push_be(&mut out, h.b as u64, 4);
    push_be(&mut out, h.c as u64, 4);
    push_be(&mut out, h.d as u64, 4);
    push_be(&mut out, h.e as u64, 4);
    proof {
        lemma_be_len(h.a as nat, 4);
        lemma_be_len(h.b as nat, 4);
        lemma_be_len(h.c as nat, 4);
        lemma_be_len(h.d as nat, 4);
        lemma_be_len(h.e as nat, 4);
    }
    assert(out@ =~= hash_bytes(h));
    out
}

/// The character that stands for six bits.
pub open spec fn six_bits(n: int) -> char {
    if n < 26 {
        ('A' as int + n) as char
    } else if n < 52 {
        ('a' as int + n - 26) as char
    } else if n < 62 {
        ('0' as int + n - 52) as char
    } else if n == 62 {
        '+'
    } else {
        '/'
    }
}

/// The four characters of up to three bytes; `=` stands for what is not there.
pub open spec fn quad(chunk: Seq<u8>) -> Seq<char> {
    let b0 = chunk[0] as int;
    let b1 = if chunk.len() > 1 {
        chunk[1] as int
    } else {
        0
    };
    let b2 = if chunk.len() > 2 {
        chunk[2] as int
    } else {
        0
    };
    seq![
        six_bits(b0 / 4),
        six_bits(b0 % 4 * 16 + b1 / 16),
        if chunk.len() > 1 {
            six_bits(b1 % 16 * 4 + b2 / 64)
        } else {
            '='
        },
        if chunk.len() > 2 {
            six_bits(b2 % 64)
        } else {
            '='
        },
    ]
}

/// The Base64 form of the bytes from `at` on.
pub open spec fn base64_from(bytes: Seq<u8>, at: nat) -> Seq<char>
    decreases bytes.len() - at,
{
    if at >= bytes.len() {
        Seq::empty()
    } else {
        let end = if at + 3 < bytes.len() {
            at + 3
        } else {
            bytes.len()
        };
        quad(bytes.subrange(at as int, end as int)) + base64_from(bytes, end)
    }
}

fn six_bit_char(n: u8) -> (c: char)
    requires
        n < 64,
    ensures
        c == six_bits(n as int),
{
    let code: u8 = if n < 26 {
        65 + n
    } else if n < 52 {
        97 + (n - 26)
    } else if n < 62 {
        48 + (n - 52)
    } else if n == 62 {
        43
    } else {
        47
    };
    code as char
}

pub fn base64_encode(bytes: &[u8]) -> (out: String)
    ensures
        out@ == base64_from(bytes@, 0),
{
    let total: usize = bytes.len();
    let mut out = String::new();
    let mut at: usize = 0;
    assert(out@ + base64_from(bytes@, 0) =~= base64_from(bytes@, 0));
    while at < total
        invariant
            total == bytes@.len(),
            at <= total,
            out@ + base64_from(bytes@, at as nat) == base64_from(bytes@, 0),
        decreases total - at,
    {
        let left: usize = total - at;
        let b0: u8 = bytes[at];
        let b1: u8 = if left > 1 {
            bytes[at + 1]
        } else {
            0
        };
        let b2: u8 = if left > 2 {
            bytes[at + 2]
        } else {
            0
        };
        let ghost before = out@;
        let end: usize = if left > 3 {
            at + 3
        } else {
            total
        };
        let ghost chunk = bytes@.subrange(at as int, end as int);
        out.push(six_bit_char(b0 / 4));
        out.push(six_bit_char(b0 % 4 * 16 + b1 / 16));
        if left > 1 {
            out.push(six_bit_char(b1 % 16 * 4 + b2 / 64));
        } else {
            out.push('=');
        }
        if left > 2 {
            out.push(six_bit_char(b2 % 64));
        } else {
            out.push('=');
        }
        assert(out@ =~= before + quad(chunk));
        assert(out@ + base64_from(bytes@, end as nat) =~= before + base64_from(bytes@, at as nat));
        at = end;
    }
    assert(out@ =~= out@ + base64_from(bytes@, at as nat));
    out
}

} // verus!
