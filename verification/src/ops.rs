//! The operations of a case: files, open modes, payloads, and the catalog from
//! which chains are made.

use vstd::prelude::*;
use vstd::string::*;

use crate::text::{dec, push_dec, push_dec_next};

verus! {

/// Descriptor slots of each worker.
pub const FD_SLOTS: usize = 2;

/// Workers that take turns in a case.
pub const WORKERS: usize = 2;

/// Bytes that a stderr write emits.
pub const STDERR_MARKER_LEN: usize = 77;

#[derive(Clone, Copy, Debug, PartialEq, Eq, PartialOrd, Ord, Structural)]
pub enum FileId {
    A,
    B,
    C,
    Fixture1,
    Fixture2,
}

/// Files that the catalog's operations name. The file under `/tmp` stays dormant.
pub const FILES: [FileId; 3] = [FileId::A, FileId::B, FileId::Fixture1];

/// Files whose contents a case records when it ends.
pub const SNAPSHOT_FILES: [FileId; 2] = [FileId::A, FileId::B];

/// Files that exist before a case starts.
pub const FIXTURE_FILES: [FileId; 2] = [FileId::Fixture1, FileId::Fixture2];

impl FileId {
    pub open spec fn name_text(self) -> Seq<char> {
        match self {
            FileId::A => "A"@,
            FileId::B => "B"@,
            FileId::C => "C"@,
            FileId::Fixture1 => "F1"@,
            FileId::Fixture2 => "F2"@,
        }
    }

    pub open spec fn tag_value(self) -> u8 {
        match self {
            FileId::A => 0,
            FileId::B => 1,
            FileId::C => 2,
            FileId::Fixture1 => 3,
            FileId::Fixture2 => 4,
        }
    }

    /// The place of a file in the order in which persistent files are renamed.
    pub open spec fn canonical_index(self) -> Option<usize> {
        match self {
            FileId::A => Some(0),
            FileId::B => Some(1),
            _ => None,
        }
    }

    pub fn name(self) -> (s: &'static str)
        ensures
            s@ == self.name_text(),
    {
        match self {
            FileId::A => "A",
            FileId::B => "B",
            FileId::C => "C",
            FileId::Fixture1 => "F1",
            FileId::Fixture2 => "F2",
        }
    }

    pub fn tag(self) -> (t: u8)
        ensures
            t == self.tag_value(),
    {
        match self {
            FileId::A => 0,
            FileId::B => 1,
            FileId::C => 2,
            FileId::Fixture1 => 3,
            FileId::Fixture2 => 4,
        }
    }

    pub fn from_tag(tag: u8) -> (r: Result<Self, String>)
        ensures
            tag <= 4 <==> r is Ok,
            r matches Ok(file) ==> file.tag_value() == tag,
            r matches Err(e) ==> e@ == "invalid file id tag "@ + dec(tag as nat),
    {
        match tag {
            0 => Ok(FileId::A),
            1 => Ok(FileId::B),
            2 => Ok(FileId::C),
            3 => Ok(FileId::Fixture1),
            4 => Ok(FileId::Fixture2),
            _ => Err(tag_error("invalid file id tag ", tag)),
        }
    }

    pub fn snapshotted(self) -> (r: bool)
        ensures
            r == SNAPSHOT_FILES@.contains(self),
            r == (self is A || self is B),
    {
        proof {
            assert(SNAPSHOT_FILES@ =~= seq![FileId::A, FileId::B]);
            assert(SNAPSHOT_FILES@[0] is A && SNAPSHOT_FILES@[1] is B);
        }
        let mut i: usize = 0;
        while i < 2
            invariant
                i <= 2,
                SNAPSHOT_FILES@ == seq![FileId::A, FileId::B],
                forall|j: int| 0 <= j < i ==> SNAPSHOT_FILES@[j] != self,
            decreases 2 - i,
        {
            if SNAPSHOT_FILES[i] == self {
                return true;
            }
            i = i + 1;
        }
        false
    }

    pub fn canonicalizable_index(self) -> (r: Option<usize>)
        ensures
            r == self.canonical_index(),
    {
        match self {
            FileId::A => Some(0),
            FileId::B => Some(1),
            FileId::C => None,
            FileId::Fixture1 => None,
            FileId::Fixture2 => None,
        }
    }

    pub fn is_fixture(self) -> (r: bool)
        ensures
            r == (self is Fixture1 || self is Fixture2),
    {
        match self {
            FileId::Fixture1 | FileId::Fixture2 => true,
            _ => false,
        }
    }

    pub fn from_canonicalizable_index(index: usize) -> (f: Self)
        requires
            index < 2,
        ensures
            f.canonical_index() == Some(index),
    {
        match index {
            0 => FileId::A,
            _ => FileId::B,
        }
    }
}

/// `text` followed by the number `tag`.
pub fn tag_error(text: &str, tag: u8) -> (s: String)
    ensures
        s@ == text@ + dec(tag as nat),
{
    let mut s = text.to_string();
    push_dec(&mut s, tag as u64);
    s
}

#[derive(Clone, Copy, Debug, PartialEq, Eq, Structural)]
pub enum OpenMode {
    ReadWriteCreate,
    AppendCreate,
    ReadWriteTruncate,
    ReadWriteCreateNew,
    ReadOnlyExisting,
}

impl OpenMode {
    pub open spec fn name_text(self) -> Seq<char> {
        match self {
            OpenMode::ReadWriteCreate => "read_write_create"@,
            OpenMode::AppendCreate => "append_create"@,
            OpenMode::ReadWriteTruncate => "read_write_truncate"@,
            OpenMode::ReadWriteCreateNew => "read_write_create_new"@,
            OpenMode::ReadOnlyExisting => "read_only_existing"@,
        }
    }

    pub open spec fn tag_value(self) -> u8 {
        match self {
            OpenMode::ReadWriteCreate => 0,
            OpenMode::AppendCreate => 1,
            OpenMode::ReadWriteTruncate => 2,
            OpenMode::ReadWriteCreateNew => 3,
            OpenMode::ReadOnlyExisting => 4,
        }
    }

    pub fn is_mutation(self) -> (r: bool)
        ensures
            r == (self !is ReadOnlyExisting),
    {
        match self {
            OpenMode::ReadWriteCreate => true,
            OpenMode::AppendCreate => true,
            OpenMode::ReadWriteTruncate => true,
            OpenMode::ReadWriteCreateNew => true,
            OpenMode::ReadOnlyExisting => false,
        }
    }

    pub fn name(self) -> (s: &'static str)
        ensures
            s@ == self.name_text(),
    {
        match self {
            OpenMode::ReadWriteCreate => "read_write_create",
            OpenMode::AppendCreate => "append_create",
            OpenMode::ReadWriteTruncate => "read_write_truncate",
            OpenMode::ReadWriteCreateNew => "read_write_create_new",
            OpenMode::ReadOnlyExisting => "read_only_existing",
        }
    }

    pub fn tag(self) -> (t: u8)
        ensures
            t == self.tag_value(),
    {
        match self {
            OpenMode::ReadWriteCreate => 0,
            OpenMode::AppendCreate => 1,
            OpenMode::ReadWriteTruncate => 2,
            OpenMode::ReadWriteCreateNew => 3,
            OpenMode::ReadOnlyExisting => 4,
        }
    }

    pub fn from_tag(tag: u8) -> (r: Result<Self, String>)
        ensures
            tag <= 4 <==> r is Ok,
            r matches Ok(mode) ==> mode.tag_value() == tag,
            r matches Err(e) ==> e@ == "invalid open mode tag "@ + dec(tag as nat),
    {
        match tag {
            0 => Ok(OpenMode::ReadWriteCreate),
            1 => Ok(OpenMode::AppendCreate),
            2 => Ok(OpenMode::ReadWriteTruncate),
            3 => Ok(OpenMode::ReadWriteCreateNew),
            4 => Ok(OpenMode::ReadOnlyExisting),
            _ => Err(tag_error("invalid open mode tag ", tag)),
        }
    }
}

#[derive(Clone, Copy, Debug, PartialEq, Eq, Structural)]
pub enum WritePayload {
    ZeroBytes,
    Bytes32,
    Bytes4K,
    Bytes32K,
}

impl WritePayload {
    pub open spec fn name_text(self) -> Seq<char> {
        match self {
            WritePayload::ZeroBytes => "zero_bytes"@,
            WritePayload::Bytes32 => "32_bytes"@,
            WritePayload::Bytes4K => "4_kb"@,
            WritePayload::Bytes32K => "32_kb"@,
        }
    }

    pub open spec fn size(self) -> nat {
        match self {
            WritePayload::ZeroBytes => 0,
            WritePayload::Bytes32 => 32,
            WritePayload::Bytes4K => 4096,
            WritePayload::Bytes32K => 32768,
        }
    }

    pub open spec fn tag_value(self) -> u8 {
        match self {
            WritePayload::ZeroBytes => 0,
            WritePayload::Bytes32 => 1,
            WritePayload::Bytes4K => 2,
            WritePayload::Bytes32K => 3,
        }
    }

    pub fn name(self) -> (s: &'static str)
        ensures
            s@ == self.name_text(),
    {
        match self {
            WritePayload::ZeroBytes => "zero_bytes",
            WritePayload::Bytes32 => "32_bytes",
            WritePayload::Bytes4K => "4_kb",
            WritePayload::Bytes32K => "32_kb",
        }
    }

    pub fn len(self) -> (n: usize)
        ensures
            n == self.size(),
    {
        match self {
            WritePayload::ZeroBytes => 0,
            WritePayload::Bytes32 => 32,
            WritePayload::Bytes4K => 4 * 1024,
            WritePayload::Bytes32K => 32 * 1024,
        }
    }

    pub fn tag(self) -> (t: u8)
        ensures
            t == self.tag_value(),
    {
        match self {
            WritePayload::ZeroBytes => 0,
            WritePayload::Bytes32 => 1,
            WritePayload::Bytes4K => 2,
            WritePayload::Bytes32K => 3,
        }
    }

    pub fn from_tag(tag: u8) -> (r: Result<Self, String>)
        ensures
            tag <= 3 <==> r is Ok,
            r matches Ok(payload) ==> payload.tag_value() == tag,
            r matches Err(e) ==> e@ == "invalid write payload tag "@ + dec(tag as nat),
    {
        match tag {
            0 => Ok(WritePayload::ZeroBytes),
            1 => Ok(WritePayload::Bytes32),
            2 => Ok(WritePayload::Bytes4K),
            3 => Ok(WritePayload::Bytes32K),
            _ => Err(tag_error("invalid write payload tag ", tag)),
        }
    }
}

#[derive(Clone, Copy, Debug, PartialEq, Eq, Structural)]
pub enum ReadSize {
    ZeroBytes,
    Bytes32,
    Bytes4K,
}

impl ReadSize {
    pub open spec fn name_text(self) -> Seq<char> {
        match self {
            ReadSize::ZeroBytes => "zero_bytes"@,
            ReadSize::Bytes32 => "32_bytes"@,
            ReadSize::Bytes4K => "4_kb"@,
        }
    }

    pub open spec fn size(self) -> nat {
        match self {
            ReadSize::ZeroBytes => 0,
            ReadSize::Bytes32 => 32,
            ReadSize::Bytes4K => 4096,
        }
    }

    pub open spec fn tag_value(self) -> u8 {
        match self {
            ReadSize::ZeroBytes => 0,
            ReadSize::Bytes32 => 1,
            ReadSize::Bytes4K => 2,
        }
    }

    pub fn name(self) -> (s: &'static str)
        ensures
            s@ == self.name_text(),
    {
        match self {
            ReadSize::ZeroBytes => "zero_bytes",
            ReadSize::Bytes32 => "32_bytes",
            ReadSize::Bytes4K => "4_kb",
        }
    }

    pub fn len(self) -> (n: usize)
        ensures
            n == self.size(),
    {
        match self {
            ReadSize::ZeroBytes => 0,
            ReadSize::Bytes32 => 32,
            ReadSize::Bytes4K => 4 * 1024,
        }
    }

    pub fn tag(self) -> (t: u8)
        ensures
            t == self.tag_value(),
    {
        match self {
            ReadSize::ZeroBytes => 0,
            ReadSize::Bytes32 => 1,
            ReadSize::Bytes4K => 2,
        }
    }

    pub fn from_tag(tag: u8) -> (r: Result<Self, String>)
        ensures
            tag <= 2 <==> r is Ok,
            r matches Ok(size) ==> size.tag_value() == tag,
            r matches Err(e) ==> e@ == "invalid read size tag "@ + dec(tag as nat),
    {
        match tag {
            0 => Ok(ReadSize::ZeroBytes),
            1 => Ok(ReadSize::Bytes32),
            2 => Ok(ReadSize::Bytes4K),
            _ => Err(tag_error("invalid read size tag ", tag)),
        }
    }
}

#[derive(Clone, Copy, Debug, PartialEq, Eq, Structural)]
pub enum SeekTarget {
    Start,
    End,
}

impl SeekTarget {
    pub open spec fn name_text(self) -> Seq<char> {
        match self {
            SeekTarget::Start => "start"@,
            SeekTarget::End => "end"@,
        }
    }

    pub open spec fn tag_value(self) -> u8 {
        match self {
            SeekTarget::Start => 0,
            SeekTarget::End => 1,
        }
    }

    pub fn name(self) -> (s: &'static str)
        ensures
            s@ == self.name_text(),
    {
        match self {
            SeekTarget::Start => "start",
            SeekTarget::End => "end",
        }
    }

    pub fn tag(self) -> (t: u8)
        ensures
            t == self.tag_value(),
    {
        match self {
            SeekTarget::Start => 0,
            SeekTarget::End => 1,
        }
    }

    pub fn from_tag(tag: u8) -> (r: Result<Self, String>)
        ensures
            tag <= 1 <==> r is Ok,
            r matches Ok(target) ==> target.tag_value() == tag,
            r matches Err(e) ==> e@ == "invalid seek target tag "@ + dec(tag as nat),
    {
        match tag {
            0 => Ok(SeekTarget::Start),
            1 => Ok(SeekTarget::End),
            _ => Err(tag_error("invalid seek target tag ", tag)),
        }
    }
}

/// A kind of operation, before it is given a slot and a file.
#[derive(Clone, Copy, Debug, PartialEq, Eq, Structural)]
pub enum OpSpec {
    Open(OpenMode),
    Close,
    Write(WritePayload),
    Read(ReadSize),
    Seek(SeekTarget),
    Fstat,
    Stat,
    ReadDir,
    WriteStderr,
    Dup,
    Delete,
}

impl OpSpec {
    pub open spec fn takes_file(self) -> bool {
        self is Open || self is Stat || self is Delete
    }

    pub open spec fn takes_fd(self) -> bool {
        !(self is Stat || self is ReadDir || self is WriteStderr || self is Delete)
    }

    pub open spec fn name_text(self) -> Seq<char> {
        match self {
            OpSpec::Open(mode) => "open("@ + mode.name_text() + ")"@,
            OpSpec::Close => "close"@,
            OpSpec::Write(payload) => "write("@ + payload.name_text() + ":"@ + dec(payload.size())
                + ")"@,
            OpSpec::Read(size) => "read("@ + size.name_text() + ":"@ + dec(size.size()) + ")"@,
            OpSpec::Seek(target) => "seek("@ + target.name_text() + ")"@,
            OpSpec::Fstat => "fstat"@,
            OpSpec::Stat => "stat"@,
            OpSpec::ReadDir => "read_dir"@,
            OpSpec::WriteStderr => "write_stderr("@ + dec(STDERR_MARKER_LEN as nat) + ")"@,
            OpSpec::Dup => "dup"@,
            OpSpec::Delete => "delete"@,
        }
    }

    pub fn needs_file(self) -> (r: bool)
        ensures
            r == self.takes_file(),
    {
        match self {
            OpSpec::Open(_) => true,
            OpSpec::Close => false,
            OpSpec::Write(_) => false,
            OpSpec::Read(_) => false,
            OpSpec::Seek(_) => false,
            OpSpec::Fstat => false,
            OpSpec::Stat => true,
            OpSpec::ReadDir => false,
            OpSpec::WriteStderr => false,
            OpSpec::Dup => false,
            OpSpec::Delete => true,
        }
    }

    pub fn needs_fd(self) -> (r: bool)
        ensures
            r == self.takes_fd(),
    {
        match self {
            OpSpec::Open(_) => true,
            OpSpec::Close => true,
            OpSpec::Write(_) => true,
            OpSpec::Read(_) => true,
            OpSpec::Seek(_) => true,
            OpSpec::Fstat => true,
            OpSpec::Stat => false,
            OpSpec::ReadDir => false,
            OpSpec::WriteStderr => false,
            OpSpec::Dup => true,
            OpSpec::Delete => false,
        }
    }

    pub fn name(self) -> (s: String)
        ensures
            s@ == self.name_text(),
    {
        match self {
            OpSpec::Open(mode) => "open(".to_string().concat(mode.name()).concat(")"),
            OpSpec::Close => "close".to_string(),
            OpSpec::Write(payload) => {
                let mut s = "write(".to_string().concat(payload.name()).concat(":");
                push_dec(&mut s, payload.len() as u64);
                s.concat(")")
            },
            OpSpec::Read(size) => {
                let mut s = "read(".to_string().concat(size.name()).concat(":");
                push_dec(&mut s, size.len() as u64);
                s.concat(")")
            },
            OpSpec::Seek(target) => "seek(".to_string().concat(target.name()).concat(")"),
            OpSpec::Fstat => "fstat".to_string(),
            OpSpec::Stat => "stat".to_string(),
            OpSpec::ReadDir => "read_dir".to_string(),
            OpSpec::WriteStderr => {
                let mut s = "write_stderr(".to_string();
                push_dec(&mut s, STDERR_MARKER_LEN as u64);
                s.concat(")")
            },
            OpSpec::Dup => "dup".to_string(),
            OpSpec::Delete => "delete".to_string(),
        }
    }
}

/// The catalog: the kinds of operation of which chains are made.
pub open spec fn catalog() -> Seq<OpSpec> {
    seq![
        OpSpec::Close,
        OpSpec::Open(OpenMode::AppendCreate),
        OpSpec::Open(OpenMode::ReadWriteCreate),
        OpSpec::Read(ReadSize::Bytes32),
        OpSpec::Write(WritePayload::Bytes32),
    ]
}

pub fn op_catalog() -> (v: Vec<OpSpec>)
    ensures
        v@ == catalog(),
{
    vec![
        OpSpec::Close,
        OpSpec::Open(OpenMode::AppendCreate),
        OpSpec::Open(OpenMode::ReadWriteCreate),
        OpSpec::Read(ReadSize::Bytes32),
        OpSpec::Write(WritePayload::Bytes32),
    ]
}

#[derive(Clone, Copy, Debug, PartialEq, Eq, Structural)]
pub enum Op {
    Open { slot: usize, file: FileId, mode: OpenMode },
    Close { slot: usize },
    Write { slot: usize, payload: WritePayload },
    Read { slot: usize, size: ReadSize },
    Seek { slot: usize, target: SeekTarget },
    Fstat { slot: usize },
    Stat { file: FileId },
    ReadDir,
    WriteStderr,
    Dup { src_slot: usize, dst_slot: usize },
    Delete { file: FileId },
}

impl Op {
    /// Whether the operation may change a file or the set of open descriptors.
    pub open spec fn mutates(self) -> bool {
        match self {
            Op::Open { mode, .. } => mode !is ReadOnlyExisting,
            Op::Write { .. } | Op::Dup { .. } | Op::Delete { .. } => true,
            _ => false,
        }
    }

    /// Whether the operation works on a descriptor that an earlier one opened.
    pub open spec fn uses_fd(self) -> bool {
        match self {
            Op::Open { .. } | Op::Stat { .. } | Op::ReadDir | Op::WriteStderr | Op::Delete { .. } => false,
            _ => true,
        }
    }

    /// The slot that the operation opens or reads; a `Dup`'s source.
    pub open spec fn slot_of(self) -> Option<usize> {
        match self {
            Op::Open { slot, .. } => Some(slot),
            Op::Close { slot } => Some(slot),
            Op::Write { slot, .. } => Some(slot),
            Op::Read { slot, .. } => Some(slot),
            Op::Seek { slot, .. } => Some(slot),
            Op::Fstat { slot } => Some(slot),
            Op::Dup { src_slot, .. } => Some(src_slot),
            _ => None,
        }
    }

    pub open spec fn file_of(self) -> Option<FileId> {
        match self {
            Op::Open { file, .. } => Some(file),
            Op::Stat { file } => Some(file),
            Op::Delete { file } => Some(file),
            _ => None,
        }
    }

    /// The operation with its slot, where it has one, replaced.
    pub open spec fn on_slot(self, to: usize) -> Op {
        match self {
            Op::Open { slot, file, mode } => Op::Open { slot: to, file, mode },
            Op::Close { slot } => Op::Close { slot: to },
            Op::Write { slot, payload } => Op::Write { slot: to, payload },
            Op::Read { slot, size } => Op::Read { slot: to, size },
            Op::Seek { slot, target } => Op::Seek { slot: to, target },
            Op::Fstat { slot } => Op::Fstat { slot: to },
            Op::Dup { src_slot, dst_slot } => Op::Dup { src_slot: to, dst_slot },
            _ => self,
        }
    }

    /// The operation with its file, where it has one, replaced.
    pub open spec fn on_file(self, to: FileId) -> Op {
        match self {
            Op::Open { slot, file, mode } => Op::Open { slot, file: to, mode },
            Op::Stat { file } => Op::Stat { file: to },
            Op::Delete { file } => Op::Delete { file: to },
            _ => self,
        }
    }

    /// Whether the slots that the operation names exist.
    pub open spec fn slots_exist(self) -> bool {
        &&& self.slot_of() matches Some(slot) ==> slot < FD_SLOTS
        &&& self matches Op::Dup { dst_slot, .. } ==> dst_slot < FD_SLOTS
    }

    /// Whether the numbers of the slots fit in a byte.
    pub open spec fn slots_fit(self) -> bool {
        &&& self.slot_of() matches Some(slot) ==> slot < 256
        &&& self matches Op::Dup { dst_slot, .. } ==> dst_slot < 256
    }

    pub open spec fn text(self) -> Seq<char> {
        match self {
            Op::Open { slot, file, mode } => "h"@ + dec((slot + 1) as nat) + " = open("@
                + file.name_text() + ", "@ + mode.name_text() + ")"@,
            Op::Close { slot } => "close(h"@ + dec((slot + 1) as nat) + ")"@,
            Op::Write { slot, payload } => "write(h"@ + dec((slot + 1) as nat) + ", "@
                + payload.name_text() + ")"@,
            Op::Read { slot, size } => "read(h"@ + dec((slot + 1) as nat) + ", "@
                + size.name_text() + ")"@,
            Op::WriteStderr => "write_stderr(77-byte-marker)"@,
            Op::Dup { src_slot, dst_slot } => "h"@ + dec((dst_slot + 1) as nat) + " = dup(h"@
                + dec((src_slot + 1) as nat) + ")"@,
            Op::Delete { file } => "delete("@ + file.name_text() + ")"@,
            Op::Seek { slot, target } => "seek(h"@ + dec((slot + 1) as nat) + ", "@
                + target.name_text() + ")"@,
            Op::Fstat { slot } => "fstat(h"@ + dec((slot + 1) as nat) + ")"@,
            Op::Stat { file } => "stat("@ + file.name_text() + ")"@,
            Op::ReadDir => "read_dir(case_dir)"@,
        }
    }

    /// The operation as a line of a program, with slots counted from one.
    pub fn pseudocode(self) -> (s: String)
        ensures
            s@ == self.text(),
    {
        match self {
            Op::Open { slot, file, mode } => {
                let mut s = "h".to_string();
                push_dec_next(&mut s, slot as u64);
                s.concat(" = open(").concat(file.name()).concat(", ").concat(mode.name()).concat(")")
            },
            Op::Close { slot } => {
                let mut s = "close(h".to_string();
                push_dec_next(&mut s, slot as u64);
                s.concat(")")
            },
            Op::Write { slot, payload } => {
                let mut s = "write(h".to_string();
                push_dec_next(&mut s, slot as u64);
                s.concat(", ").concat(payload.name()).concat(")")
            },
            Op::Read { slot, size } => {
                let mut s = "read(h".to_string();
                push_dec_next(&mut s, slot as u64);
                s.concat(", ").concat(size.name()).concat(")")
            },
            Op::WriteStderr => "write_stderr(77-byte-marker)".to_string(),
            Op::Dup { src_slot, dst_slot } => {
                let mut s = "h".to_string();
                push_dec_next(&mut s, dst_slot as u64);
                s.append(" = dup(h");
                push_dec_next(&mut s, src_slot as u64);
                s.concat(")")
            },
            Op::Delete { file } => "delete(".to_string().concat(file.name()).concat(")"),
            Op::Seek { slot, target } => {
                let mut s = "seek(h".to_string();
                push_dec_next(&mut s, slot as u64);
                s.concat(", ").concat(target.name()).concat(")")
            },
            Op::Fstat { slot } => {
                let mut s = "fstat(h".to_string();
                push_dec_next(&mut s, slot as u64);
                s.concat(")")
            },
            Op::Stat { file } => "stat(".to_string().concat(file.name()).concat(")"),
            Op::ReadDir => "read_dir(case_dir)".to_string(),
        }
    }

    pub fn is_mutation(self) -> (r: bool)
        ensures
            r == self.mutates(),
    {
        match self {
            Op::Open { mode, .. } => mode.is_mutation(),
            Op::Close { .. } => false,
            Op::Write { .. } => true,
            Op::Read { .. } => false,
            Op::Seek { .. } => false,
            Op::Fstat { .. } => false,
            Op::Stat { .. } => false,
            Op::ReadDir => false,
            Op::WriteStderr => false,
            Op::Dup { .. } => true,
            Op::Delete { .. } => true,
        }
    }

    pub fn requires_fd(self) -> (r: bool)
        ensures
            r == self.uses_fd(),
    {
        match self {
            Op::Open { .. } => false,
            Op::Close { .. } => true,
            Op::Write { .. } => true,
            Op::Read { .. } => true,
            Op::Seek { .. } => true,
            Op::Fstat { .. } => true,
            Op::Stat { .. } => false,
            Op::ReadDir => false,
            Op::WriteStderr => false,
            Op::Dup { .. } => true,
            Op::Delete { .. } => false,
        }
    }

    pub fn slot(self) -> (r: Option<usize>)
        ensures
            r == self.slot_of(),
    {
        match self {
            Op::Open { slot, .. } => Some(slot),
            Op::Close { slot } => Some(slot),
            Op::Write { slot, .. } => Some(slot),
            Op::Read { slot, .. } => Some(slot),
            Op::Seek { slot, .. } => Some(slot),
            Op::Fstat { slot } => Some(slot),
            Op::Stat { .. } => None,
            Op::ReadDir => None,
            Op::WriteStderr => None,
            Op::Dup { src_slot, .. } => Some(src_slot),
            Op::Delete { .. } => None,
        }
    }

    pub fn file(self) -> (r: Option<FileId>)
        ensures
            r == self.file_of(),
    {
        match self {
            Op::Open { file, .. } => Some(file),
            Op::Close { .. } => None,
            Op::Write { .. } => None,
            Op::Read { .. } => None,
            Op::Seek { .. } => None,
            Op::Fstat { .. } => None,
            Op::Stat { file } => Some(file),
            Op::ReadDir => None,
            Op::WriteStderr => None,
            Op::Dup { .. } => None,
            Op::Delete { file } => Some(file),
        }
    }

    pub fn with_slot(self, canonical_slot: usize) -> (op: Self)
        ensures
            op == self.on_slot(canonical_slot),
    {
        match self {
            Op::Open { file, mode, .. } => Op::Open { slot: canonical_slot, file, mode },
            Op::Close { .. } => Op::Close { slot: canonical_slot },
            Op::Write { payload, .. } => Op::Write { slot: canonical_slot, payload },
            Op::Read { size, .. } => Op::Read { slot: canonical_slot, size },
            Op::Seek { target, .. } => Op::Seek { slot: canonical_slot, target },
            Op::Fstat { .. } => Op::Fstat { slot: canonical_slot },
            Op::Stat { .. } => self,
            Op::ReadDir => self,
            Op::WriteStderr => self,
            Op::Dup { dst_slot, .. } => Op::Dup { src_slot: canonical_slot, dst_slot },
            Op::Delete { .. } => self,
        }
    }

    pub fn with_file(self, canonical_file: FileId) -> (op: Self)
        ensures
            op == self.on_file(canonical_file),
    {
        match self {
            Op::Open { slot, mode, .. } => Op::Open { slot, file: canonical_file, mode },
            Op::Stat { .. } => Op::Stat { file: canonical_file },
            Op::Delete { .. } => Op::Delete { file: canonical_file },
            Op::Close { .. } => self,
            Op::Write { .. } => self,
            Op::Read { .. } => self,
            Op::Seek { .. } => self,
            Op::Fstat { .. } => self,
            Op::ReadDir => self,
            Op::WriteStderr => self,
            Op::Dup { .. } => self,
        }
    }
}

} // verus!
