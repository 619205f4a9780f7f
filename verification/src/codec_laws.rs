//! Laws of the binary form: what was written is what is read, whatever follows it.

use vstd::prelude::*;
use vstd::utf8::*;

use crate::codec::{
    byte_weight, group_weight, le_bytes, le_value, lemma_byte_weights, lemma_group_weights,
    op_bytes, parse_bytes, parse_exact, parse_file, parse_groups, parse_mode, parse_op,
    parse_payload, parse_result, parse_size, parse_string, parse_target, parse_u32, parse_u64,
    parse_u8, parse_var_bytes, parse_var_i64, parse_var_u64, result_bytes, sized_bytes, unzigzag,
    var_bytes, var_sized_bytes, zigzag, Input,
};
use crate::ops::{FileId, Op, OpenMode, ReadSize, SeekTarget, WritePayload};
use crate::result::{lemma_error_tags, OpResultView};

verus! {

/// The first bytes of an input are read, and what follows them is left.
pub proof fn lemma_exact(input: Input, bytes: Seq<u8>, tail: Seq<u8>)
    requires
        input.rest == bytes + tail,
    ensures
        parse_exact(input, bytes.len()) == (Ok::<Seq<u8>, Seq<char>>(bytes), input.at(tail)),
{
    assert(input.rest.take(bytes.len() as int) =~= bytes);
    assert(input.rest.skip(bytes.len() as int) =~= tail);
}

pub proof fn lemma_first_byte(input: Input, byte: u8, tail: Seq<u8>)
    requires
        input.rest == seq![byte] + tail,
    ensures
        parse_u8(input) == (Ok::<u8, Seq<char>>(byte), input.at(tail)),
{
    lemma_exact(input, seq![byte], tail);
}

proof fn lemma_le_inverse(n: nat, count: nat)
    requires
        n < byte_weight(count),
    ensures
        le_bytes(n, count).len() == count,
        le_value(le_bytes(n, count)) == n,
    decreases count,
{
    if count > 0 {
        lemma_le_inverse(n / 256, (count - 1) as nat);
        let bytes = le_bytes(n, count);
        assert(bytes.drop_first() =~= le_bytes(n / 256, (count - 1) as nat));
    }
}

/// A number of four bytes is read back.
pub proof fn law_u32_round_trip(n: u32, input: Input, tail: Seq<u8>)
    requires
        input.rest == le_bytes(n as nat, 4) + tail,
    ensures
        parse_u32(input) == (Ok::<u32, Seq<char>>(n), input.at(tail)),
{
    lemma_byte_weights();
    lemma_le_inverse(n as nat, 4);
    lemma_exact(input, le_bytes(n as nat, 4), tail);
}

/// A number of eight bytes is read back.
pub proof fn law_u64_round_trip(n: u64, input: Input, tail: Seq<u8>)
    requires
        input.rest == le_bytes(n as nat, 8) + tail,
    ensures
        parse_u64(input) == (Ok::<u64, Seq<char>>(n), input.at(tail)),
{
    lemma_byte_weights();
    lemma_le_inverse(n as nat, 8);
    lemma_exact(input, le_bytes(n as nat, 8), tail);
}

proof fn lemma_groups(m: nat, k: nat, sum: nat, input: Input, tail: Seq<u8>)
    requires
        input.rest == var_bytes(m) + tail,
        k <= 9,
        sum < group_weight(k),
        m * group_weight(k) + sum < 0x1_0000_0000_0000_0000,
    ensures
        parse_groups(input, k, sum) == (
            Ok::<u64, Seq<char>>((m * group_weight(k) + sum) as u64),
            input.at(tail),
        ),
    decreases m,
{
    let w = group_weight(k);
    lemma_group_weights();
    if m < 128 {
        lemma_first_byte(input, m as u8, tail);
        assert(((m as u8) % 128) as nat == m);
        assert(sum + m * w == m * w + sum);
    } else {
        if k == 9 {
            assert(m * w >= 128 * w) by (nonlinear_arith)
                requires
                    m >= 128,
            ;
            assert(false);
        }
        let byte = (m % 128 + 128) as u8;
        let more = var_bytes(m / 128) + tail;
        assert(input.rest =~= seq![byte] + more);
        lemma_first_byte(input, byte, more);
        assert((byte % 128) as nat == m % 128);
        let next = sum + (m % 128) * w;
        assert(group_weight(k + 1) == 128 * w);
        assert(next < 128 * w) by (nonlinear_arith)
            requires
                sum < w,
                next == sum + (m % 128) * w,
                m % 128 <= 127,
        ;
        assert(m * w + sum == (m / 128) * (128 * w) + next) by (nonlinear_arith)
            requires
                m == 128 * (m / 128) + m % 128,
                next == sum + (m % 128) * w,
        ;
        lemma_groups(m / 128, k + 1, next, input.at(more), tail);
    }
}

/// A number in groups of seven bits is read back.
pub proof fn law_var_u64_round_trip(n: u64, input: Input, tail: Seq<u8>)
    requires
        input.rest == var_bytes(n as nat) + tail,
    ensures
        parse_var_u64(input) == (Ok::<u64, Seq<char>>(n), input.at(tail)),
{
    lemma_group_weights();
    lemma_groups(n as nat, 0, 0, input, tail);
    assert(n as nat * group_weight(0) == n as nat);
}

/// A signed number and the natural number that stands for it name each other.
pub proof fn law_zigzag_inverse(v: i64, n: u64)
    ensures
        unzigzag(zigzag(v as int)) == v,
        zigzag(unzigzag(n as nat)) == n,
        zigzag(v as int) <= u64::MAX,
        i64::MIN <= unzigzag(n as nat) <= i64::MAX,
{
}

/// A signed number is read back.
pub proof fn law_var_i64_round_trip(v: i64, input: Input, tail: Seq<u8>)
    requires
        input.rest == var_bytes(zigzag(v as int)) + tail,
    ensures
        parse_var_i64(input) == (Ok::<i64, Seq<char>>(v), input.at(tail)),
{
    law_zigzag_inverse(v, 0);
    law_var_u64_round_trip(zigzag(v as int) as u64, input, tail);
}

/// Bytes behind their number in four bytes are read back, if the number has room.
pub proof fn law_bytes_round_trip(bytes: Seq<u8>, input: Input, tail: Seq<u8>)
    requires
        bytes.len() <= u32::MAX,
        input.rest == sized_bytes(bytes) + tail,
    ensures
        parse_bytes(input) == (Ok::<Seq<u8>, Seq<char>>(bytes), input.at(tail)),
{
    let len = bytes.len() as u32;
    assert(input.rest =~= le_bytes(len as nat, 4) + (bytes + tail));
    law_u32_round_trip(len, input, bytes + tail);
    lemma_exact(input.at(bytes + tail), bytes, tail);
}

/// A string of fewer than four gigabytes is read back.
pub proof fn law_string_round_trip(text: Seq<char>, input: Input, tail: Seq<u8>)
    requires
        encode_utf8(text).len() <= u32::MAX,
        input.rest == sized_bytes(encode_utf8(text)) + tail,
    ensures
        parse_string(input) == (Ok::<Seq<char>, Seq<char>>(text), input.at(tail)),
{
    law_bytes_round_trip(encode_utf8(text), input, tail);
    encode_utf8_valid_utf8(text);
    encode_utf8_decode_utf8(text);
}

/// Bytes behind their number in groups of seven bits are read back.
pub proof fn law_var_bytes_round_trip(bytes: Seq<u8>, input: Input, tail: Seq<u8>)
    requires
        bytes.len() <= usize::MAX,
        input.rest == var_sized_bytes(bytes) + tail,
    ensures
        parse_var_bytes(input) == (Ok::<Seq<u8>, Seq<char>>(bytes), input.at(tail)),
{
    let len = bytes.len() as u64;
    assert(input.rest =~= var_bytes(len as nat) + (bytes + tail));
    law_var_u64_round_trip(len, input, bytes + tail);
    lemma_exact(input.at(bytes + tail), bytes, tail);
}

/// A result that a report can hold is read back.
pub proof fn law_result_round_trip(result: OpResultView, input: Input, tail: Seq<u8>)
    requires
        result.reportable(),
        result.data.len() <= usize::MAX,
        input.rest == result_bytes(result) + tail,
    ensures
        parse_result(input) == (Ok::<OpResultView, Seq<char>>(result), input.at(tail)),
{
    if result.err !is NoErr {
        let code = result.err.tag_value();
        assert(input.rest =~= seq![4u8] + (seq![code] + tail));
        lemma_first_byte(input, 4, seq![code] + tail);
        lemma_first_byte(input.at(seq![code] + tail), code, tail);
        lemma_error_tags(result.err);
    } else if result.data.len() > 0 {
        let more = var_sized_bytes(result.data) + tail;
        assert(input.rest =~= seq![3u8] + more);
        lemma_first_byte(input, 3, more);
        law_var_bytes_round_trip(result.data, input.at(more), tail);
    } else if result.rc == -1 {
        lemma_first_byte(input, 0, tail);
        assert(result =~= OpResultView::of_ok((-1) as i64));
    } else if result.rc == 0 {
        lemma_first_byte(input, 1, tail);
        assert(result =~= OpResultView::of_ok(0));
    } else {
        let more = var_bytes(zigzag(result.rc as int)) + tail;
        assert(input.rest =~= seq![2u8] + more);
        lemma_first_byte(input, 2, more);
        law_var_i64_round_trip(result.rc, input.at(more), tail);
        assert(result =~= OpResultView::of_ok(result.rc));
    }
}

/// The identity of a file, an open mode, a payload, a read size and a seek target are
/// each read back from their tag.
pub proof fn law_tags_round_trip(
    file: FileId,
    mode: OpenMode,
    payload: WritePayload,
    size: ReadSize,
    target: SeekTarget,
    input: Input,
    tail: Seq<u8>,
)
    ensures
        input.rest == seq![file.tag_value()] + tail ==> parse_file(input) == (
            Ok::<FileId, Seq<char>>(file),
            input.at(tail),
        ),
        input.rest == seq![mode.tag_value()] + tail ==> parse_mode(input) == (
            Ok::<OpenMode, Seq<char>>(mode),
            input.at(tail),
        ),
        input.rest == seq![payload.tag_value()] + tail ==> parse_payload(input) == (
            Ok::<WritePayload, Seq<char>>(payload),
            input.at(tail),
        ),
        input.rest == seq![size.tag_value()] + tail ==> parse_size(input) == (
            Ok::<ReadSize, Seq<char>>(size),
            input.at(tail),
        ),
        input.rest == seq![target.tag_value()] + tail ==> parse_target(input) == (
            Ok::<SeekTarget, Seq<char>>(target),
            input.at(tail),
        ),
{
    if input.rest == seq![file.tag_value()] + tail {
        lemma_first_byte(input, file.tag_value(), tail);
    }
    if input.rest == seq![mode.tag_value()] + tail {
        lemma_first_byte(input, mode.tag_value(), tail);
    }
    if input.rest == seq![payload.tag_value()] + tail {
        lemma_first_byte(input, payload.tag_value(), tail);
    }
    if input.rest == seq![size.tag_value()] + tail {
        lemma_first_byte(input, size.tag_value(), tail);
    }
    if input.rest == seq![target.tag_value()] + tail {
        lemma_first_byte(input, target.tag_value(), tail);
    }
}

/// An operation whose slots fit in a byte is read back.
pub proof fn law_op_round_trip(op: Op, input: Input, tail: Seq<u8>)
    requires
        op.slots_fit(),
        input.rest == op_bytes(op) + tail,
    ensures
        parse_op(input) == (Ok::<Op, Seq<char>>(op), input.at(tail)),
{
    let all = op_bytes(op);
    let more = all.skip(1) + tail;
    assert(input.rest =~= seq![all[0]] + more);
    lemma_first_byte(input, all[0], more);
    let i1 = input.at(more);
    if all.len() >= 2 {
        let m2 = all.skip(2) + tail;
        assert(more =~= seq![all[1]] + m2);
        lemma_first_byte(i1, all[1], m2);
        let i2 = i1.at(m2);
        if all.len() >= 3 {
            let m3 = all.skip(3) + tail;
            assert(m2 =~= seq![all[2]] + m3);
            lemma_first_byte(i2, all[2], m3);
            let i3 = i2.at(m3);
            if all.len() >= 4 {
                assert(m3 =~= seq![all[3]] + tail);
                lemma_first_byte(i3, all[3], tail);
            } else {
                assert(m3 =~= tail);
            }
        } else {
            assert(m2 =~= tail);
        }
    } else {
        assert(more =~= tail);
    }
}

} // verus!
