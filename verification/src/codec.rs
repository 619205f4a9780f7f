//! The binary form of numbers, byte strings, operations and results in a report.

use vstd::prelude::*;
use vstd::string::*;
use vstd::utf8::*;

use crate::ops::{tag_error, FileId, Op, OpenMode, ReadSize, SeekTarget, WritePayload};
use crate::result::{OpResult, OpResultView, OracleErr};
use crate::text::dec;

verus! {

/// What is left of a stream of bytes, and how it ends: in order, or with a fault.
#[verifier::ext_equal]
pub struct Input {
    pub rest: Seq<u8>,
    pub fault: Option<Seq<char>>,
}

impl Input {
    /// What a read that wants more bytes than there are reports.
    pub open spec fn end_text(self) -> Seq<char> {
        match self.fault {
            Some(text) => text,
            None => "failed to fill whole buffer"@,
        }
    }

    pub open spec fn at(self, rest: Seq<u8>) -> Input {
        Input { rest, fault: self.fault }
    }
}

/// The outcome of reading something off an input, and the input after it.
pub type Parsed<T> = (Result<T, Seq<char>>, Input);

pub open spec fn read_failure(input: Input) -> Seq<char> {
    "failed to read oracle report: "@ + input.end_text()
}

/// The next `n` bytes; an input that has fewer is used up.
pub open spec fn parse_exact(input: Input, n: nat) -> Parsed<Seq<u8>> {
    if n <= input.rest.len() {
        (Ok(input.rest.take(n as int)), input.at(input.rest.skip(n as int)))
    } else {
        (Err(read_failure(input)), input.at(Seq::empty()))
    }
}

pub open spec fn parse_u8(input: Input) -> Parsed<u8> {
    match parse_exact(input, 1) {
        (Ok(bytes), after) => (Ok(bytes[0]), after),
        (Err(e), after) => (Err(e), after),
    }
}

/// The number whose bytes, lowest first, are `bytes`.
pub open spec fn le_value(bytes: Seq<u8>) -> nat
    decreases bytes.len(),
{
    if bytes.len() == 0 {
        0
    } else {
        bytes[0] as nat + 256 * le_value(bytes.drop_first())
    }
}

/// The lowest `count` bytes of `n`, lowest first.
pub open spec fn le_bytes(n: nat, count: nat) -> Seq<u8>
    decreases count,
{
    if count == 0 {
        Seq::empty()
    } else {
        seq![(n % 256) as u8] + le_bytes(n / 256, (count - 1) as nat)
    }
}

pub open spec fn parse_u32(input: Input) -> Parsed<u32> {
    match parse_exact(input, 4) {
        (Ok(bytes), after) => (Ok(le_value(bytes) as u32), after),
        (Err(e), after) => (Err(e), after),
    }
}

pub open spec fn parse_u64(input: Input) -> Parsed<u64> {
    match parse_exact(input, 8) {
        (Ok(bytes), after) => (Ok(le_value(bytes) as u64), after),
        (Err(e), after) => (Err(e), after),
    }
}

/// `n` in groups of seven bits, lowest first, with the high bit set on all but the
/// last.
pub open spec fn var_bytes(n: nat) -> Seq<u8>
    decreases n,
{
    if n < 128 {
        seq![n as u8]
    } else {
        seq![(n % 128 + 128) as u8] + var_bytes(n / 128)
    }
}

/// `128` to the power `k`.
pub open spec fn group_weight(k: nat) -> nat
    decreases k,
{
    if k == 0 {
        1
    } else {
        128 * group_weight((k - 1) as nat)
    }
}

/// Reads the groups of seven bits from the one with number `k` on; `sum` is what the
/// groups before it make. Of the tenth group only the lowest bit has room.
pub open spec fn parse_groups(input: Input, k: nat, sum: nat) -> Parsed<u64>
    decreases 10 - k,
{
    match parse_u8(input) {
        (Ok(byte), after) => {
            let next = sum + (byte % 128) as nat * group_weight(k);
            if byte < 128 {
                (Ok((next % 0x1_0000_0000_0000_0000) as u64), after)
            } else if k >= 9 {
                (Err("invalid varint in oracle report"@), after)
            } else {
                parse_groups(after, k + 1, next)
            }
        },
        (Err(e), after) => (Err(e), after),
    }
}

pub open spec fn parse_var_u64(input: Input) -> Parsed<u64> {
    parse_groups(input, 0, 0)
}

/// The natural number that stands for `v`: even for what is not negative, odd else.
pub open spec fn zigzag(v: int) -> nat {
    if v >= 0 {
        (2 * v) as nat
    } else {
        (-2 * v - 1) as nat
    }
}

/// The number for which `n` stands.
pub open spec fn unzigzag(n: nat) -> int {
    if n % 2 == 0 {
        (n / 2) as int
    } else {
        -((n / 2) as int) - 1
    }
}

pub open spec fn parse_var_i64(input: Input) -> Parsed<i64> {
    match parse_var_u64(input) {
        (Ok(n), after) => (Ok(unzigzag(n as nat) as i64), after),
        (Err(e), after) => (Err(e), after),
    }
}

pub open spec fn parse_bytes(input: Input) -> Parsed<Seq<u8>> {
    match parse_u32(input) {
        (Ok(len), after) => parse_exact(after, len as usize as nat),
        (Err(e), after) => (Err(e), after),
    }
}

pub open spec fn parse_var_bytes(input: Input) -> Parsed<Seq<u8>> {
    match parse_var_u64(input) {
        (Ok(len), after) => parse_exact(after, len as usize as nat),
        (Err(e), after) => (Err(e), after),
    }
}

/// What `String::from_utf8` says of bytes that are not UTF-8.
pub uninterp spec fn utf8_error_text(bytes: Seq<u8>) -> Seq<char>;

pub open spec fn parse_string(input: Input) -> Parsed<Seq<char>> {
    match parse_bytes(input) {
        (Ok(bytes), after) => if valid_utf8(bytes) {
            (Ok(decode_utf8(bytes)), after)
        } else {
            (Err("invalid utf-8 in oracle report: "@ + utf8_error_text(bytes)), after)
        },
        (Err(e), after) => (Err(e), after),
    }
}

/// `bytes` behind their number, which is cut to four bytes.
pub open spec fn sized_bytes(bytes: Seq<u8>) -> Seq<u8> {
    le_bytes(bytes.len() % 0x1_0000_0000, 4) + bytes
}

/// `bytes` behind their number in groups of seven bits.
pub open spec fn var_sized_bytes(bytes: Seq<u8>) -> Seq<u8> {
    var_bytes(bytes.len()) + bytes
}

/// A result in the form in which a report holds it.
pub open spec fn result_bytes(result: OpResultView) -> Seq<u8> {
    if result.err !is NoErr {
        seq![4u8, result.err.tag_value()]
    } else if result.data.len() > 0 {
        seq![3u8] + var_sized_bytes(result.data)
    } else if result.rc == -1 {
        seq![0u8]
    } else if result.rc == 0 {
        seq![1u8]
    } else {
        seq![2u8] + var_bytes(zigzag(result.rc as int))
    }
}

pub open spec fn parse_result(input: Input) -> Parsed<OpResultView> {
    match parse_u8(input) {
        (Ok(tag), after) => if tag == 0 {
            (Ok(OpResultView::of_ok((-1) as i64)), after)
        } else if tag == 1 {
            (Ok(OpResultView::of_ok(0)), after)
        } else if tag == 2 {
            match parse_var_i64(after) {
                (Ok(rc), last) => (Ok(OpResultView::of_ok(rc)), last),
                (Err(e), last) => (Err(e), last),
            }
        } else if tag == 3 {
            match parse_var_bytes(after) {
                (Ok(data), last) => (
                    Ok(OpResultView { rc: data.len() as i64, err: OracleErr::NoErr, data }),
                    last,
                ),
                (Err(e), last) => (Err(e), last),
            }
        } else if tag == 4 {
            match parse_u8(after) {
                (Ok(code), last) => match OracleErr::of_tag(code) {
                    Some(err) => (Ok(OpResultView::of_err(err)), last),
                    None => (Err("invalid oracle error tag "@ + dec(code as nat)), last),
                },
                (Err(e), last) => (Err(e), last),
            }
        } else {
            (Err("invalid op result tag "@ + dec(tag as nat)), after)
        },
        (Err(e), after) => (Err(e), after),
    }
}

pub open spec fn parse_file(input: Input) -> Parsed<FileId> {
    match parse_u8(input) {
        (Ok(0u8), after) => (Ok(FileId::A), after),
        (Ok(1u8), after) => (Ok(FileId::B), after),
        (Ok(2u8), after) => (Ok(FileId::C), after),
        (Ok(3u8), after) => (Ok(FileId::Fixture1), after),
        (Ok(4u8), after) => (Ok(FileId::Fixture2), after),
        (Ok(tag), after) => (Err("invalid file id tag "@ + dec(tag as nat)), after),
        (Err(e), after) => (Err(e), after),
    }
}

pub open spec fn parse_mode(input: Input) -> Parsed<OpenMode> {
    match parse_u8(input) {
        (Ok(0u8), after) => (Ok(OpenMode::ReadWriteCreate), after),
        (Ok(1u8), after) => (Ok(OpenMode::AppendCreate), after),
        (Ok(2u8), after) => (Ok(OpenMode::ReadWriteTruncate), after),
        (Ok(3u8), after) => (Ok(OpenMode::ReadWriteCreateNew), after),
        (Ok(4u8), after) => (Ok(OpenMode::ReadOnlyExisting), after),
        (Ok(tag), after) => (Err("invalid open mode tag "@ + dec(tag as nat)), after),
        (Err(e), after) => (Err(e), after),
    }
}

pub open spec fn parse_payload(input: Input) -> Parsed<WritePayload> {
    match parse_u8(input) {
        (Ok(0u8), after) => (Ok(WritePayload::ZeroBytes), after),
        (Ok(1u8), after) => (Ok(WritePayload::Bytes32), after),
        (Ok(2u8), after) => (Ok(WritePayload::Bytes4K), after),
        (Ok(3u8), after) => (Ok(WritePayload::Bytes32K), after),
        (Ok(tag), after) => (Err("invalid write payload tag "@ + dec(tag as nat)), after),
        (Err(e), after) => (Err(e), after),
    }
}

pub open spec fn parse_size(input: Input) -> Parsed<ReadSize> {
    match parse_u8(input) {
        (Ok(0u8), after) => (Ok(ReadSize::ZeroBytes), after),
        (Ok(1u8), after) => (Ok(ReadSize::Bytes32), after),
        (Ok(2u8), after) => (Ok(ReadSize::Bytes4K), after),
        (Ok(tag), after) => (Err("invalid read size tag "@ + dec(tag as nat)), after),
        (Err(e), after) => (Err(e), after),
    }
}

pub open spec fn parse_target(input: Input) -> Parsed<SeekTarget> {
    match parse_u8(input) {
        (Ok(0u8), after) => (Ok(SeekTarget::Start), after),
        (Ok(1u8), after) => (Ok(SeekTarget::End), after),
        (Ok(tag), after) => (Err("invalid seek target tag "@ + dec(tag as nat)), after),
        (Err(e), after) => (Err(e), after),
    }
}

/// An operation in the form in which a report holds it.
pub open spec fn op_bytes(op: Op) -> Seq<u8> {
    match op {
        Op::Open { slot, file, mode } => seq![
            0u8,
            slot as u8,
            file.tag_value(),
            mode.tag_value(),
        ],
        Op::Close { slot } => seq![1u8, slot as u8],
        Op::Write { slot, payload } => seq![2u8, slot as u8, payload.tag_value()],
        Op::Read { slot, size } => seq![3u8, slot as u8, size.tag_value()],
        Op::WriteStderr => seq![4u8],
        Op::Delete { file } => seq![5u8, file.tag_value()],
        Op::Seek { slot, target } => seq![6u8, slot as u8, target.tag_value()],
        Op::Fstat { slot } => seq![7u8, slot as u8],
        Op::Stat { file } => seq![8u8, file.tag_value()],
        Op::ReadDir => seq![9u8],
        Op::Dup { src_slot, dst_slot } => seq![10u8, src_slot as u8, dst_slot as u8],
    }
}

pub open spec fn parse_open(input: Input) -> Parsed<Op> {
    match parse_u8(input) {
        (Ok(slot), i1) => match parse_file(i1) {
            (Ok(file), i2) => match parse_mode(i2) {
                (Ok(mode), i3) => (Ok(Op::Open { slot: slot as usize, file, mode }), i3),
                (Err(e), i3) => (Err(e), i3),
            },
            (Err(e), i2) => (Err(e), i2),
        },
        (Err(e), i1) => (Err(e), i1),
    }
}

pub open spec fn parse_write(input: Input) -> Parsed<Op> {
    match parse_u8(input) {
        (Ok(slot), i1) => match parse_payload(i1) {
            (Ok(payload), i2) => (Ok(Op::Write { slot: slot as usize, payload }), i2),
            (Err(e), i2) => (Err(e), i2),
        },
        (Err(e), i1) => (Err(e), i1),
    }
}

pub open spec fn parse_read(input: Input) -> Parsed<Op> {
    match parse_u8(input) {
        (Ok(slot), i1) => match parse_size(i1) {
            (Ok(size), i2) => (Ok(Op::Read { slot: slot as usize, size }), i2),
            (Err(e), i2) => (Err(e), i2),
        },
        (Err(e), i1) => (Err(e), i1),
    }
}

pub open spec fn parse_seek(input: Input) -> Parsed<Op> {
    match parse_u8(input) {
        (Ok(slot), i1) => match parse_target(i1) {
            (Ok(target), i2) => (Ok(Op::Seek { slot: slot as usize, target }), i2),
            (Err(e), i2) => (Err(e), i2),
        },
        (Err(e), i1) => (Err(e), i1),
    }
}

pub open spec fn parse_dup(input: Input) -> Parsed<Op> {
    match parse_u8(input) {
        (Ok(src), i1) => match parse_u8(i1) {
            (Ok(dst), i2) => (
                Ok(Op::Dup { src_slot: src as usize, dst_slot: dst as usize }),
                i2,
            ),
            (Err(e), i2) => (Err(e), i2),
        },
        (Err(e), i1) => (Err(e), i1),
    }
}

pub open spec fn parse_op(input: Input) -> Parsed<Op> {
    match parse_u8(input) {
        (Ok(0u8), i1) => parse_open(i1),
        (Ok(1u8), i1) => match parse_u8(i1) {
            (Ok(slot), i2) => (Ok(Op::Close { slot: slot as usize }), i2),
            (Err(e), i2) => (Err(e), i2),
        },
        (Ok(2u8), i1) => parse_write(i1),
        (Ok(3u8), i1) => parse_read(i1),
        (Ok(4u8), i1) => (Ok(Op::WriteStderr), i1),
        (Ok(5u8), i1) => match parse_file(i1) {
            (Ok(file), i2) => (Ok(Op::Delete { file }), i2),
            (Err(e), i2) => (Err(e), i2),
        },
        (Ok(6u8), i1) => parse_seek(i1),
        (Ok(7u8), i1) => match parse_u8(i1) {
            (Ok(slot), i2) => (Ok(Op::Fstat { slot: slot as usize }), i2),
            (Err(e), i2) => (Err(e), i2),
        },
        (Ok(8u8), i1) => match parse_file(i1) {
            (Ok(file), i2) => (Ok(Op::Stat { file }), i2),
            (Err(e), i2) => (Err(e), i2),
        },
        (Ok(9u8), i1) => (Ok(Op::ReadDir), i1),
        (Ok(10u8), i1) => parse_dup(i1),
        (Ok(tag), i1) => (Err("invalid op tag "@ + dec(tag as nat)), i1),
        (Err(e), i1) => (Err(e), i1),
    }
}

/// A result's error by its text.
pub open spec fn by_text<T>(r: Result<T, String>) -> Result<T, Seq<char>> {
    match r {
        Ok(v) => Ok(v),
        Err(e) => Err(e@),
    }
}


/// `String::from_utf8` gives the string whose UTF-8 form the bytes are. It fails if and
/// only if they are not UTF-8, with a text that the bytes determine.
#[verifier::external_body]
pub(crate) fn string_from_utf8(bytes: Vec<u8>) -> (r: Result<String, String>)
    ensures
        r is Ok <==> valid_utf8(bytes@),
        r matches Ok(s) ==> s@ == decode_utf8(bytes@),
        r matches Err(e) ==> e@ == utf8_error_text(bytes@),
{
    String::from_utf8(bytes).map_err(|e| e.to_string())
}

/// A stream of bytes held in memory. Where it does not end in order, `fault` says why.
pub struct Source {
    pub bytes: Vec<u8>,
    pub pos: usize,
    pub fault: Option<String>,
}

impl Source {
    pub open spec fn wf(&self) -> bool {
        self.pos <= self.bytes@.len()
    }

    pub open spec fn input(&self) -> Input {
        Input {
            rest: self.bytes@.skip(self.pos as int),
            fault: match self.fault {
                Some(text) => Some(text@),
                None => None,
            },
        }
    }

    /// A stream of exactly `bytes`.
    pub fn new(bytes: Vec<u8>) -> (s: Self)
        ensures
            s.wf(),
            s.input() == (Input { rest: bytes@, fault: None }),
    {
        let s = Source { bytes, pos: 0, fault: None };
        assert(s.input().rest =~= bytes@);
        s
    }

    fn end_text(&self) -> (text: String)
        ensures
            text@ == self.input().end_text(),
    {
        match &self.fault {
            Some(text) => text.clone(),
            None => "failed to fill whole buffer".to_string(),
        }
    }

    /// The next `n` bytes. Where there are fewer, the stream is used up and the text
    /// says how it ended.
    pub fn take_exact(&mut self, n: usize) -> (r: Result<Vec<u8>, String>)
        requires
            old(self).wf(),
        ensures
            final(self).wf(),
            final(self).fault == old(self).fault,
            r is Ok <==> n <= old(self).input().rest.len(),
            r matches Ok(bytes) ==> {
                &&& bytes@ == old(self).input().rest.take(n as int)
                &&& final(self).input() == old(self).input().at(
                    old(self).input().rest.skip(n as int),
                )
            },
            r matches Err(e) ==> {
                &&& e@ == old(self).input().end_text()
                &&& final(self).input() == old(self).input().at(Seq::empty())
            },
    {
        let left: usize = self.bytes.len() - self.pos;
        if n > left {
            self.pos = self.bytes.len();
            assert(self.input() =~= old(self).input().at(Seq::empty()));
            return Err(self.end_text());
        }
        let mut out: Vec<u8> = Vec::new();
        let mut i: usize = 0;
        while i < n
            invariant
                i <= n,
                *self == *old(self),
                self.wf(),
                n <= self.bytes@.len() - self.pos,
                out@ == self.input().rest.take(i as int),
            decreases n - i,
        {
            let total: usize = self.bytes.len();
            assert(self.pos + i < total);
            out.push(self.bytes[self.pos + i]);
            i = i + 1;
            assert(out@ =~= self.input().rest.take(i as int));
        }
        self.pos = self.pos + n;
        assert(self.input() =~= old(self).input().at(old(self).input().rest.skip(n as int)));
        Ok(out)
    }
}

fn read_error(text: String) -> (e: String)
    ensures
        e@ == "failed to read oracle report: "@ + text@,
{
    "failed to read oracle report: ".to_string().concat(text.as_str())
}

fn read_exact(r: &mut Source, n: usize) -> (out: Result<Vec<u8>, String>)
    requires
        old(r).wf(),
    ensures
        final(r).wf(),
        (by_text_view(out), final(r).input()) == parse_exact(old(r).input(), n as nat),
{
    match r.take_exact(n) {
        Ok(bytes) => Ok(bytes),
        Err(e) => Err(read_error(e)),
    }
}

/// A result's bytes by their view, and its error by its text.
pub open spec fn by_text_view(r: Result<Vec<u8>, String>) -> Result<Seq<u8>, Seq<char>> {
    match r {
        Ok(v) => Ok(v@),
        Err(e) => Err(e@),
    }
}

/// The next byte, where there is one: the tag of a record.
pub fn read_record_tag(r: &mut Source) -> (out: Result<Option<u8>, String>)
    requires
        old(r).wf(),
    ensures
        final(r).wf(),
        (by_text(out), final(r).input()) == parse_record_tag(old(r).input()),
{
    if r.pos == r.bytes.len() {
        match &r.fault {
            Some(text) => Err(read_error(text.clone())),
            None => Ok(None),
        }
    } else {
        let byte: u8 = r.bytes[r.pos];
        r.pos = r.pos + 1;
        assert(r.input().rest =~= old(r).input().rest.skip(1));
        Ok(Some(byte))
    }
}

pub open spec fn parse_record_tag(input: Input) -> Parsed<Option<u8>> {
    if input.rest.len() > 0 {
        (Ok(Some(input.rest[0])), input.at(input.rest.skip(1)))
    } else {
        match input.fault {
            Some(_) => (Err(read_failure(input)), input),
            None => (Ok(None), input),
        }
    }
}

pub fn read_u8(r: &mut Source) -> (out: Result<u8, String>)
    requires
        old(r).wf(),
    ensures
        final(r).wf(),
        (by_text(out), final(r).input()) == parse_u8(old(r).input()),
{
    match read_exact(r, 1) {
        Ok(bytes) => Ok(bytes[0]),
        Err(e) => Err(e),
    }
}

/// The number whose bytes, lowest first, are `bytes`.
fn value_of(bytes: &[u8]) -> (n: u64)
    requires
        bytes@.len() <= 8,
    ensures
        n == le_value(bytes@),
{
    let mut n: u64 = 0;
    let mut i: usize = bytes.len();
    proof {
        assert(bytes@.skip(i as int) =~= Seq::empty());
    }
    while i > 0
        invariant
            i <= bytes@.len() <= 8,
            n == le_value(bytes@.skip(i as int)),
        decreases i,
    {
        proof {
            lemma_le_bound(bytes@.skip(i as int));
            lemma_byte_weights();
            assert(bytes@.skip(i as int - 1).drop_first() =~= bytes@.skip(i as int));
            lemma_le_bound(bytes@.skip(i as int - 1));
            lemma_weight_grows((bytes@.len() - i) as nat, 7);
        }
        i = i - 1;
        n = n * 256 + bytes[i] as u64;
    }
    assert(bytes@.skip(0) =~= bytes@);
    n
}

/// `256` to the power `k`.
pub open spec fn byte_weight(k: nat) -> nat
    decreases k,
{
    if k == 0 {
        1
    } else {
        256 * byte_weight((k - 1) as nat)
    }
}

pub proof fn lemma_byte_weights()
    ensures
        byte_weight(4) == 0x1_0000_0000,
        byte_weight(7) == 0x100_0000_0000_0000,
        byte_weight(8) == 0x1_0000_0000_0000_0000,
{
    reveal_with_fuel(byte_weight, 9);
}

proof fn lemma_weight_grows(low: nat, high: nat)
    requires
        low <= high,
    ensures
        byte_weight(low) <= byte_weight(high),
    decreases high,
{
    if low < high {
        lemma_weight_grows(low, (high - 1) as nat);
    }
}

/// A number of so many bytes is less than that power of 256.
pub proof fn lemma_le_bound(bytes: Seq<u8>)
    ensures
        le_value(bytes) < byte_weight(bytes.len()),
    decreases bytes.len(),
{
    if bytes.len() > 0 {
        lemma_le_bound(bytes.drop_first());
    }
}

pub fn read_u32(r: &mut Source) -> (out: Result<u32, String>)
    requires
        old(r).wf(),
    ensures
        final(r).wf(),
        (by_text(out), final(r).input()) == parse_u32(old(r).input()),
{
    match read_exact(r, 4) {
        Ok(bytes) => {
            proof {
                lemma_le_bound(bytes@);
                lemma_byte_weights();
            }
            Ok(value_of(bytes.as_slice()) as u32)
        },
        Err(e) => Err(e),
    }
}

pub fn read_u64(r: &mut Source) -> (out: Result<u64, String>)
    requires
        old(r).wf(),
    ensures
        final(r).wf(),
        (by_text(out), final(r).input()) == parse_u64(old(r).input()),
{
    match read_exact(r, 8) {
        Ok(bytes) => Ok(value_of(bytes.as_slice())),
        Err(e) => Err(e),
    }
}


pub proof fn lemma_group_weights()
    ensures
        group_weight(0) == 1,
        group_weight(1) == 128,
        group_weight(9) == 0x8000_0000_0000_0000,
{
    reveal_with_fuel(group_weight, 10);
}

proof fn lemma_group_weight_bound(k: nat)
    requires
        k < 9,
    ensures
        group_weight(k) <= 0x100_0000_0000_0000,
        128 * group_weight(k) == group_weight(k + 1),
{
    reveal_with_fuel(group_weight, 10);
}

/// A number in groups of seven bits. More than ten groups are refused, and of the tenth
/// only the lowest bit counts.
pub fn read_var_u64(r: &mut Source) -> (out: Result<u64, String>)
    requires
        old(r).wf(),
    ensures
        final(r).wf(),
        (by_text(out), final(r).input()) == parse_var_u64(old(r).input()),
{
    let mut k: u64 = 0;
    let mut weight: u64 = 1;
    let mut value: u64 = 0;
    proof {
        lemma_group_weights();
    }
    loop
        invariant
            r.wf(),
            k <= 9,
            weight == group_weight(k as nat),
            value < weight,
            parse_groups(r.input(), k as nat, value as nat) == parse_var_u64(old(r).input()),
        decreases 10 - k,
    {
        let byte: u8 = match read_u8(r) {
            Ok(byte) => byte,
            Err(e) => {
                return Err(e);
            },
        };
        proof {
            lemma_group_weights();
        }
        let group: u64 = (byte % 128) as u64;
        if k == 9 {
            if byte < 128 {
                let bit: u64 = group % 2;
                assert((value + group * 0x8000_0000_0000_0000) % 0x1_0000_0000_0000_0000 == value
                    + bit * 0x8000_0000_0000_0000);
                return Ok(value + bit * 0x8000_0000_0000_0000);
            }
            return Err("invalid varint in oracle report".to_string());
        }
        proof {
            lemma_group_weight_bound(k as nat);
            assert(group * weight <= 127 * weight) by (nonlinear_arith)
                requires
                    group <= 127,
            ;
        }
        value = value + group * weight;
        if byte < 128 {
            return Ok(value);
        }
        weight = weight * 128;
        k = k + 1;
    }
}

pub fn read_var_i64(r: &mut Source) -> (out: Result<i64, String>)
    requires
        old(r).wf(),
    ensures
        final(r).wf(),
        (by_text(out), final(r).input()) == parse_var_i64(old(r).input()),
{
    match read_var_u64(r) {
        Ok(n) => {
            let half: i64 = (n / 2) as i64;
            if n % 2 == 0 {
                Ok(half)
            } else {
                Ok(-half - 1)
            }
        },
        Err(e) => Err(e),
    }
}

pub fn read_bytes(r: &mut Source) -> (out: Result<Vec<u8>, String>)
    requires
        old(r).wf(),
    ensures
        final(r).wf(),
        (by_text_view(out), final(r).input()) == parse_bytes(old(r).input()),
{
    match read_u32(r) {
        Ok(len) => read_exact(r, len as usize),
        Err(e) => Err(e),
    }
}

/// A result's text by its view, and its error by its text.
pub open spec fn by_texts(r: Result<String, String>) -> Result<Seq<char>, Seq<char>> {
    match r {
        Ok(v) => Ok(v@),
        Err(e) => Err(e@),
    }
}

pub fn read_string(r: &mut Source) -> (out: Result<String, String>)
    requires
        old(r).wf(),
    ensures
        final(r).wf(),
        (by_texts(out), final(r).input()) == parse_string(old(r).input()),
{
    match read_bytes(r) {
        Ok(bytes) => match string_from_utf8(bytes) {
            Ok(s) => Ok(s),
            Err(e) => Err("invalid utf-8 in oracle report: ".to_string().concat(e.as_str())),
        },
        Err(e) => Err(e),
    }
}

pub fn read_var_bytes(r: &mut Source) -> (out: Result<Vec<u8>, String>)
    requires
        old(r).wf(),
    ensures
        final(r).wf(),
        (by_text_view(out), final(r).input()) == parse_var_bytes(old(r).input()),
{
    match read_var_u64(r) {
        Ok(len) => read_exact(r, len as usize),
        Err(e) => Err(e),
    }
}

/// A result by its view, and its error by its text.
pub open spec fn by_result(r: Result<OpResult, String>) -> Result<OpResultView, Seq<char>> {
    match r {
        Ok(v) => Ok(v@),
        Err(e) => Err(e@),
    }
}

pub fn read_op_result(r: &mut Source) -> (out: Result<OpResult, String>)
    requires
        old(r).wf(),
    ensures
        final(r).wf(),
        (by_result(out), final(r).input()) == parse_result(old(r).input()),
{
    let tag: u8 = match read_u8(r) {
        Ok(tag) => tag,
        Err(e) => {
            return Err(e);
        },
    };
    match tag {
        0 => Ok(OpResult::ok(-1)),
        1 => Ok(OpResult::ok(0)),
        2 => match read_var_i64(r) {
            Ok(rc) => Ok(OpResult::ok(rc)),
            Err(e) => Err(e),
        },
        3 => match read_var_bytes(r) {
            Ok(data) => Ok(OpResult::ok_data(data.len() as i64, data)),
            Err(e) => Err(e),
        },
        4 => match read_u8(r) {
            Ok(code) => match OracleErr::from_tag(code) {
                Ok(err) => Ok(OpResult::err(err)),
                Err(e) => Err(e),
            },
            Err(e) => Err(e),
        },
        _ => Err(tag_error("invalid op result tag ", tag)),
    }
}

fn read_file(r: &mut Source) -> (out: Result<FileId, String>)
    requires
        old(r).wf(),
    ensures
        final(r).wf(),
        (by_text(out), final(r).input()) == parse_file(old(r).input()),
{
    match read_u8(r) {
        Ok(tag) => FileId::from_tag(tag),
        Err(e) => Err(e),
    }
}

fn read_mode(r: &mut Source) -> (out: Result<OpenMode, String>)
    requires
        old(r).wf(),
    ensures
        final(r).wf(),
        (by_text(out), final(r).input()) == parse_mode(old(r).input()),
{
    match read_u8(r) {
        Ok(tag) => OpenMode::from_tag(tag),
        Err(e) => Err(e),
    }
}

fn read_payload(r: &mut Source) -> (out: Result<WritePayload, String>)
    requires
        old(r).wf(),
    ensures
        final(r).wf(),
        (by_text(out), final(r).input()) == parse_payload(old(r).input()),
{
    match read_u8(r) {
        Ok(tag) => WritePayload::from_tag(tag),
        Err(e) => Err(e),
    }
}

fn read_size(r: &mut Source) -> (out: Result<ReadSize, String>)
    requires
        old(r).wf(),
    ensures
        final(r).wf(),
        (by_text(out), final(r).input()) == parse_size(old(r).input()),
{
    match read_u8(r) {
        Ok(tag) => ReadSize::from_tag(tag),
        Err(e) => Err(e),
    }
}

fn read_target(r: &mut Source) -> (out: Result<SeekTarget, String>)
    requires
        old(r).wf(),
    ensures
        final(r).wf(),
        (by_text(out), final(r).input()) == parse_target(old(r).input()),
{
    match read_u8(r) {
        Ok(tag) => SeekTarget::from_tag(tag),
        Err(e) => Err(e),
    }
}

impl Op {
    /// Reads an operation off a report.
    pub fn read_from(r: &mut Source) -> (out: Result<Self, String>)
        requires
            old(r).wf(),
        ensures
            final(r).wf(),
            (by_text(out), final(r).input()) == parse_op(old(r).input()),
    {
        let tag: u8 = read_u8(r)?;
        match tag {
            0 => {
                let slot: u8 = read_u8(r)?;
                let file = read_file(r)?;
                let mode = read_mode(r)?;
                Ok(Op::Open { slot: slot as usize, file, mode })
            },
            1 => {
                let slot: u8 = read_u8(r)?;
                Ok(Op::Close { slot: slot as usize })
            },
            2 => {
                let slot: u8 = read_u8(r)?;
                let payload = read_payload(r)?;
                Ok(Op::Write { slot: slot as usize, payload })
            },
            3 => {
                let slot: u8 = read_u8(r)?;
                let size = read_size(r)?;
                Ok(Op::Read { slot: slot as usize, size })
            },
            4 => Ok(Op::WriteStderr),
            5 => {
                let file = read_file(r)?;
                Ok(Op::Delete { file })
            },
            6 => {
                let slot: u8 = read_u8(r)?;
                let target = read_target(r)?;
                Ok(Op::Seek { slot: slot as usize, target })
            },
            7 => {
                let slot: u8 = read_u8(r)?;
                Ok(Op::Fstat { slot: slot as usize })
            },
            8 => {
                let file = read_file(r)?;
                Ok(Op::Stat { file })
            },
            9 => Ok(Op::ReadDir),
            10 => {
                let src: u8 = read_u8(r)?;
                let dst: u8 = read_u8(r)?;
                Ok(Op::Dup { src_slot: src as usize, dst_slot: dst as usize })
            },
            _ => Err(tag_error("invalid op tag ", tag)),
        }
    }

    /// Appends the operation's form in a report. Of a slot's number only the lowest
    /// byte is kept.
    pub fn write_to(&self, w: &mut Vec<u8>)
        ensures
            final(w)@ == old(w)@ + op_bytes(*self),
    {
        match *self {
            Op::Open { slot, file, mode } => {
                write_u8(w, 0);
                write_u8(w, slot as u8);
                write_u8(w, file.tag());
                write_u8(w, mode.tag());
            },
            Op::Close { slot } => {
                write_u8(w, 1);
                write_u8(w, slot as u8);
            },
            Op::Write { slot, payload } => {
                write_u8(w, 2);
                write_u8(w, slot as u8);
                write_u8(w, payload.tag());
            },
            Op::Read { slot, size } => {
                write_u8(w, 3);
                write_u8(w, slot as u8);
                write_u8(w, size.tag());
            },
            Op::WriteStderr => write_u8(w, 4),
            Op::Delete { file } => {
                write_u8(w, 5);
                write_u8(w, file.tag());
            },
            Op::Seek { slot, target } => {
                write_u8(w, 6);
                write_u8(w, slot as u8);
                write_u8(w, target.tag());
            },
            Op::Fstat { slot } => {
                write_u8(w, 7);
                write_u8(w, slot as u8);
            },
            Op::Stat { file } => {
                write_u8(w, 8);
                write_u8(w, file.tag());
            },
            Op::ReadDir => write_u8(w, 9),
            Op::Dup { src_slot, dst_slot } => {
                write_u8(w, 10);
                write_u8(w, src_slot as u8);
                write_u8(w, dst_slot as u8);
            },
        }
        assert(w@ =~= old(w)@ + op_bytes(*self));
    }
}

pub fn write_u8(w: &mut Vec<u8>, value: u8)
    ensures
        final(w)@ == old(w)@ + seq![value],
{
    w.push(value);
    assert(w@ =~= old(w)@ + seq![value]);
}

fn write_le(w: &mut Vec<u8>, value: u64, count: u8)
    ensures
        final(w)@ == old(w)@ + le_bytes(value as nat, count as nat),
    decreases count,
{
    if count > 0 {
        w.push((value % 256) as u8);
        write_le(w, value / 256, (count - 1) as u8);
    }
    assert(w@ =~= old(w)@ + le_bytes(value as nat, count as nat));
}

pub fn write_u32(w: &mut Vec<u8>, value: u32)
    ensures
        final(w)@ == old(w)@ + le_bytes(value as nat, 4),
{
    write_le(w, value as u64, 4);
}

pub fn write_u64(w: &mut Vec<u8>, value: u64)
    ensures
        final(w)@ == old(w)@ + le_bytes(value as nat, 8),
{
    write_le(w, value, 8);
}

pub fn write_var_u64(w: &mut Vec<u8>, value: u64)
    ensures
        final(w)@ == old(w)@ + var_bytes(value as nat),
    decreases value,
{
    if value >= 128 {
        write_u8(w, (value % 128 + 128) as u8);
        write_var_u64(w, value / 128);
    } else {
        write_u8(w, value as u8);
    }
    assert(w@ =~= old(w)@ + var_bytes(value as nat));
}

pub fn write_var_i64(w: &mut Vec<u8>, value: i64)
    ensures
        final(w)@ == old(w)@ + var_bytes(zigzag(value as int)),
{
    if value >= 0 {
        write_var_u64(w, value as u64 * 2);
    } else {
        write_var_u64(w, (-(value + 1)) as u64 * 2 + 1);
    }
}

/// Appends all of `bytes`.
pub fn write_all(w: &mut Vec<u8>, bytes: &[u8])
    ensures
        final(w)@ == old(w)@ + bytes@,
{
    w.extend_from_slice(bytes);
    assert(w@ =~= old(w)@ + bytes@);
}

pub fn write_bytes(w: &mut Vec<u8>, bytes: &[u8])
    ensures
        final(w)@ == old(w)@ + sized_bytes(bytes@),
{
    write_u32(w, (bytes.len() as u64 % 0x1_0000_0000) as u32);
    write_all(w, bytes);
    assert(w@ =~= old(w)@ + sized_bytes(bytes@));
}

pub fn write_string(w: &mut Vec<u8>, value: &str)
    ensures
        final(w)@ == old(w)@ + sized_bytes(encode_utf8(value@)),
{
    write_bytes(w, value.as_bytes());
}

pub fn write_var_bytes(w: &mut Vec<u8>, bytes: &[u8])
    ensures
        final(w)@ == old(w)@ + var_sized_bytes(bytes@),
{
    write_var_u64(w, bytes.len() as u64);
    write_all(w, bytes);
    assert(w@ =~= old(w)@ + var_sized_bytes(bytes@));
}

pub fn write_op_result(w: &mut Vec<u8>, result: &OpResult)
    ensures
        final(w)@ == old(w)@ + result_bytes(result@),
{
    if result.err != OracleErr::NoErr {
        write_u8(w, 4);
        write_u8(w, result.err.tag());
    } else if !result.data.is_empty() {
        write_u8(w, 3);
        write_var_bytes(w, result.data.as_slice());
    } else if result.rc == -1 {
        write_u8(w, 0);
    } else if result.rc == 0 {
        write_u8(w, 1);
    } else {
        write_u8(w, 2);
        write_var_i64(w, result.rc);
    }
    assert(w@ =~= old(w)@ + result_bytes(result@));
}

} // verus!
