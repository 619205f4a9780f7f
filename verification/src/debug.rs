//! The texts by which mismatches show records.

use vstd::prelude::*;
use vstd::string::*;

use crate::ops::{FileId, Op, OpenMode, ReadSize, SeekTarget, WritePayload};
use crate::report::{ComparableRecord, RecordView};
use crate::text::{bool_str, bool_text, dec, dec_int, push_dec, push_dec_int};

verus! {

/// A path in quotes, with the characters that do not print escaped: what the standard
/// library's `Debug` of a `Path` shows.
pub uninterp spec fn quoted_path(path: Seq<char>) -> Seq<char>;

/// Formats `path` with the `Debug` of `std::path::Path`, whose text the path determines.
#[verifier::external_body]
pub(crate) fn quote_path(path: &str) -> (s: String)
    ensures
        s@ == quoted_path(path@),
{
    format!("{:?}", std::path::Path::new(path))
}

impl FileId {
    pub open spec fn variant_text(self) -> Seq<char> {
        match self {
            FileId::A => "A"@,
            FileId::B => "B"@,
            FileId::C => "C"@,
            FileId::Fixture1 => "Fixture1"@,
            FileId::Fixture2 => "Fixture2"@,
        }
    }

    pub fn variant(self) -> (s: &'static str)
        ensures
            s@ == self.variant_text(),
    {
        match self {
            FileId::A => "A",
            FileId::B => "B",
            FileId::C => "C",
            FileId::Fixture1 => "Fixture1",
            FileId::Fixture2 => "Fixture2",
        }
    }
}

impl OpenMode {
    pub open spec fn variant_text(self) -> Seq<char> {
        match self {
            OpenMode::ReadWriteCreate => "ReadWriteCreate"@,
            OpenMode::AppendCreate => "AppendCreate"@,
            OpenMode::ReadWriteTruncate => "ReadWriteTruncate"@,
            OpenMode::ReadWriteCreateNew => "ReadWriteCreateNew"@,
            OpenMode::ReadOnlyExisting => "ReadOnlyExisting"@,
        }
    }

    pub fn variant(self) -> (s: &'static str)
        ensures
            s@ == self.variant_text(),
    {
        match self {
            OpenMode::ReadWriteCreate => "ReadWriteCreate",
            OpenMode::AppendCreate => "AppendCreate",
            OpenMode::ReadWriteTruncate => "ReadWriteTruncate",
            OpenMode::ReadWriteCreateNew => "ReadWriteCreateNew",
            OpenMode::ReadOnlyExisting => "ReadOnlyExisting",
        }
    }
}

impl WritePayload {
    pub open spec fn variant_text(self) -> Seq<char> {
        match self {
            WritePayload::ZeroBytes => "ZeroBytes"@,
            WritePayload::Bytes32 => "Bytes32"@,
            WritePayload::Bytes4K => "Bytes4K"@,
            WritePayload::Bytes32K => "Bytes32K"@,
        }
    }

    pub fn variant(self) -> (s: &'static str)
        ensures
            s@ == self.variant_text(),
    {
        match self {
            WritePayload::ZeroBytes => "ZeroBytes",
            WritePayload::Bytes32 => "Bytes32",
            WritePayload::Bytes4K => "Bytes4K",
            WritePayload::Bytes32K => "Bytes32K",
        }
    }
}

impl ReadSize {
    pub open spec fn variant_text(self) -> Seq<char> {
        match self {
            ReadSize::ZeroBytes => "ZeroBytes"@,
            ReadSize::Bytes32 => "Bytes32"@,
            ReadSize::Bytes4K => "Bytes4K"@,
        }
    }

    pub fn variant(self) -> (s: &'static str)
        ensures
            s@ == self.variant_text(),
    {
        match self {
            ReadSize::ZeroBytes => "ZeroBytes",
            ReadSize::Bytes32 => "Bytes32",
            ReadSize::Bytes4K => "Bytes4K",
        }
    }
}

impl SeekTarget {
    pub open spec fn variant_text(self) -> Seq<char> {
        match self {
            SeekTarget::Start => "Start"@,
            SeekTarget::End => "End"@,
        }
    }

    pub fn variant(self) -> (s: &'static str)
        ensures
            s@ == self.variant_text(),
    {
        match self {
            SeekTarget::Start => "Start",
            SeekTarget::End => "End",
        }
    }
}

impl Op {
    /// The operation with the names of its fields.
    pub open spec fn debug_text(self) -> Seq<char> {
        match self {
            Op::Open { slot, file, mode } => "Open { slot: "@ + dec(slot as nat) + ", file: "@
                + file.variant_text() + ", mode: "@ + mode.variant_text() + " }"@,
            Op::Close { slot } => "Close { slot: "@ + dec(slot as nat) + " }"@,
            Op::Write { slot, payload } => "Write { slot: "@ + dec(slot as nat) + ", payload: "@
                + payload.variant_text() + " }"@,
            Op::Read { slot, size } => "Read { slot: "@ + dec(slot as nat) + ", size: "@
                + size.variant_text() + " }"@,
            Op::Seek { slot, target } => "Seek { slot: "@ + dec(slot as nat) + ", target: "@
                + target.variant_text() + " }"@,
            Op::Fstat { slot } => "Fstat { slot: "@ + dec(slot as nat) + " }"@,
            Op::Stat { file } => "Stat { file: "@ + file.variant_text() + " }"@,
            Op::ReadDir => "ReadDir"@,
            Op::WriteStderr => "WriteStderr"@,
            Op::Dup { src_slot, dst_slot } => "Dup { src_slot: "@ + dec(src_slot as nat)
                + ", dst_slot: "@ + dec(dst_slot as nat) + " }"@,
            Op::Delete { file } => "Delete { file: "@ + file.variant_text() + " }"@,
        }
    }

    pub fn debug(self) -> (s: String)
        ensures
            s@ == self.debug_text(),
    {
        match self {
            Op::Open { slot, file, mode } => {
                let mut s = "Open { slot: ".to_string();
                push_dec(&mut s, slot as u64);
                s.concat(", file: ").concat(file.variant()).concat(", mode: ").concat(
                    mode.variant(),
                ).concat(" }")
            },
            Op::Close { slot } => {
                let mut s = "Close { slot: ".to_string();
                push_dec(&mut s, slot as u64);
                s.concat(" }")
            },
            Op::Write { slot, payload } => {
                let mut s = "Write { slot: ".to_string();
                push_dec(&mut s, slot as u64);
                s.concat(", payload: ").concat(payload.variant()).concat(" }")
            },
            Op::Read { slot, size } => {
                let mut s = "Read { slot: ".to_string();
                push_dec(&mut s, slot as u64);
                s.concat(", size: ").concat(size.variant()).concat(" }")
            },
            Op::Seek { slot, target } => {
                let mut s = "Seek { slot: ".to_string();
                push_dec(&mut s, slot as u64);
                s.concat(", target: ").concat(target.variant()).concat(" }")
            },
            Op::Fstat { slot } => {
                let mut s = "Fstat { slot: ".to_string();
                push_dec(&mut s, slot as u64);
                s.concat(" }")
            },
            Op::Stat { file } => "Stat { file: ".to_string().concat(file.variant()).concat(" }"),
            Op::ReadDir => "ReadDir".to_string(),
            Op::WriteStderr => "WriteStderr".to_string(),
            Op::Dup { src_slot, dst_slot } => {
                let mut s = "Dup { src_slot: ".to_string();
                push_dec(&mut s, src_slot as u64);
                s.append(", dst_slot: ");
                push_dec(&mut s, dst_slot as u64);
                s.concat(" }")
            },
            Op::Delete { file } => "Delete { file: ".to_string().concat(file.variant()).concat(
                " }",
            ),
        }
    }
}

/// Bytes in decimal, with commas between them.
pub open spec fn byte_list(bytes: Seq<u8>) -> Seq<char>
    decreases bytes.len(),
{
    if bytes.len() == 0 {
        Seq::empty()
    } else if bytes.len() == 1 {
        dec(bytes[0] as nat)
    } else {
        byte_list(bytes.drop_last()) + ", "@ + dec(bytes.last() as nat)
    }
}

pub(crate) fn push_byte_list(out: &mut String, bytes: &[u8])
    ensures
        final(out)@ == old(out)@ + byte_list(bytes@),
{
    let mut i: usize = 0;
    assert(out@ =~= old(out)@ + byte_list(bytes@.take(0)));
    while i < bytes.len()
        invariant
            i <= bytes@.len(),
            out@ == old(out)@ + byte_list(bytes@.take(i as int)),
        decreases bytes@.len() - i,
    {
        assert(bytes@.take(i as int + 1).drop_last() =~= bytes@.take(i as int));
        if i > 0 {
            out.append(", ");
        }
        push_dec(out, bytes[i] as u64);
        i = i + 1;
        assert(out@ =~= old(out)@ + byte_list(bytes@.take(i as int)));
    }
    assert(bytes@.take(i as int) =~= bytes@);
}

/// A record with the names of its fields.
pub open spec fn record_text(record: RecordView) -> Seq<char> {
    match record {
        RecordView::Case { case_id, mask } => "Case { case_id: "@ + dec(case_id as nat)
            + ", mask: "@ + dec(mask as nat) + " }"@,
        RecordView::Result { step, worker, op, rc, err, data } => "Result { step: "@ + dec(
            step as nat,
        ) + ", worker: "@ + dec(worker as nat) + ", op: "@ + op.debug_text() + ", rc: "@ + dec_int(
            rc as int,
        ) + ", err: "@ + err.name_text() + ", data: ["@ + byte_list(data) + "] }"@,
        RecordView::Snapshot { case_id, file, rel, exists, len, hash } => "Snapshot { case_id: "@
            + dec(case_id as nat) + ", file: "@ + file.variant_text() + ", rel: "@ + quoted_path(
            rel,
        ) + ", exists: "@ + bool_text(exists) + ", len: "@ + dec(len as nat) + ", hash: "@ + dec(
            hash as nat,
        ) + " }"@,
        RecordView::End { cases } => "End { cases: "@ + dec(cases as nat) + " }"@,
    }
}

impl ComparableRecord {
    pub fn debug(&self) -> (s: String)
        ensures
            s@ == record_text(self@),
    {
        match self {
            ComparableRecord::Case { case_id, mask } => {
                let mut s = "Case { case_id: ".to_string();
                push_dec(&mut s, *case_id);
                s.append(", mask: ");
                push_dec(&mut s, *mask);
                s.concat(" }")
            },
            ComparableRecord::Result { step, worker, op, rc, err, data } => {
                let mut s = "Result { step: ".to_string();
                push_dec(&mut s, *step as u64);
                s.append(", worker: ");
                push_dec(&mut s, *worker as u64);
                s.append(", op: ");
                s.append(op.debug().as_str());
                s.append(", rc: ");
                push_dec_int(&mut s, *rc);
                s.append(", err: ");
                s.append(err.name());
                s.append(", data: [");
                push_byte_list(&mut s, data.as_slice());
                s.concat("] }")
            },
            ComparableRecord::Snapshot { case_id, file, rel, exists, len, hash } => {
                let mut s = "Snapshot { case_id: ".to_string();
                push_dec(&mut s, *case_id);
                s.append(", file: ");
                s.append(file.variant());
                s.append(", rel: ");
                s.append(quote_path(rel.as_str()).as_str());
                s.append(", exists: ");
                s.append(bool_str(*exists));
                s.append(", len: ");
                push_dec(&mut s, *len);
                s.append(", hash: ");
                push_dec(&mut s, *hash);
                s.concat(" }")
            },
            ComparableRecord::End { cases } => {
                let mut s = "End { cases: ".to_string();
                push_dec(&mut s, *cases);
                s.concat(" }")
            },
        }
    }
}

} // verus!
