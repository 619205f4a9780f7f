//! The commands that workers carry out.

use vstd::prelude::*;
use vstd::string::*;

use crate::cli::opt_text;
use crate::debug::{byte_list, push_byte_list, quote_path, quoted_path};
use crate::expected::{bytes_copy, handle_index, handles_without, lemma_handle_pushed};
use crate::paths::{parent, parent_of};
use crate::text::{bool_str, bool_text, dec, push_dec};
use crate::world::{handle_map, HandleMeta, HandleView, OpenFlags};

verus! {

/// Where a worker's log goes.
#[derive(Clone, Copy, Debug, PartialEq, Eq, Structural)]
pub enum LogSink {
    Stderr,
    Handle(usize, u64),
}

/// What a worker is told to do, with the number of the step.
pub enum WorkerCommand {
    Open { step: u64, handle: u64, path: String, flags: OpenFlags },
    Close { step: u64, handle: u64 },
    ReadAt { step: u64, handle: u64, offset: u64, size: usize },
    WriteAt { step: u64, handle: u64, offset: u64, data: Vec<u8> },
    Seek { step: u64, handle: u64, offset: u64 },
    ReadSeq { step: u64, handle: u64, size: usize },
    WriteSeq { step: u64, handle: u64, data: Vec<u8> },
    Fsync { step: u64, handle: u64 },
    Truncate { step: u64, handle: u64, len: u64 },
    Unlink { step: u64, path: String },
    Rename { step: u64, from: String, to: String },
    WriteStdout { step: u64, data: Vec<u8> },
    WriteStderr { step: u64, data: Vec<u8> },
    SwitchLogSink { step: u64, sink: LogSink },
    WriteLog { step: u64, data: Vec<u8> },
    VerifyPath { step: u64, path: String },
    VerifyHandle { step: u64, handle: u64, offset: u64, size: usize },
    Stop { step: u64 },
}

/// A command by its values.
#[verifier::ext_equal]
pub enum CommandView {
    Open { step: u64, handle: u64, path: Seq<char>, flags: OpenFlags },
    Close { step: u64, handle: u64 },
    ReadAt { step: u64, handle: u64, offset: u64, size: usize },
    WriteAt { step: u64, handle: u64, offset: u64, data: Seq<u8> },
    Seek { step: u64, handle: u64, offset: u64 },
    ReadSeq { step: u64, handle: u64, size: usize },
    WriteSeq { step: u64, handle: u64, data: Seq<u8> },
    Fsync { step: u64, handle: u64 },
    Truncate { step: u64, handle: u64, len: u64 },
    Unlink { step: u64, path: Seq<char> },
    Rename { step: u64, from: Seq<char>, to: Seq<char> },
    WriteStdout { step: u64, data: Seq<u8> },
    WriteStderr { step: u64, data: Seq<u8> },
    SwitchLogSink { step: u64, sink: LogSink },
    WriteLog { step: u64, data: Seq<u8> },
    VerifyPath { step: u64, path: Seq<char> },
    VerifyHandle { step: u64, handle: u64, offset: u64, size: usize },
    Stop { step: u64 },
}

impl View for WorkerCommand {
    type V = CommandView;

    open spec fn view(&self) -> CommandView {
        match *self {
            WorkerCommand::Open { step, handle, path, flags } => CommandView::Open {
                step,
                handle,
                path: path@,
                flags,
            },
            WorkerCommand::Close { step, handle } => CommandView::Close { step, handle },
            WorkerCommand::ReadAt { step, handle, offset, size } => CommandView::ReadAt {
                step,
                handle,
                offset,
                size,
            },
            WorkerCommand::WriteAt { step, handle, offset, data } => CommandView::WriteAt {
                step,
                handle,
                offset,
                data: data@,
            },
            WorkerCommand::Seek { step, handle, offset } => CommandView::Seek {
                step,
                handle,
                offset,
            },
            WorkerCommand::ReadSeq { step, handle, size } => CommandView::ReadSeq {
                step,
                handle,
                size,
            },
            WorkerCommand::WriteSeq { step, handle, data } => CommandView::WriteSeq {
                step,
                handle,
                data: data@,
            },
            WorkerCommand::Fsync { step, handle } => CommandView::Fsync { step, handle },
            WorkerCommand::Truncate { step, handle, len } => CommandView::Truncate {
                step,
                handle,
                len,
            },
            WorkerCommand::Unlink { step, path } => CommandView::Unlink { step, path: path@ },
            WorkerCommand::Rename { step, from, to } => CommandView::Rename {
                step,
                from: from@,
                to: to@,
            },
            WorkerCommand::WriteStdout { step, data } => CommandView::WriteStdout {
                step,
                data: data@,
            },
            WorkerCommand::WriteStderr { step, data } => CommandView::WriteStderr {
                step,
                data: data@,
            },
            WorkerCommand::SwitchLogSink { step, sink } => CommandView::SwitchLogSink {
                step,
                sink,
            },
            WorkerCommand::WriteLog { step, data } => CommandView::WriteLog { step, data: data@ },
            WorkerCommand::VerifyPath { step, path } => CommandView::VerifyPath {
                step,
                path: path@,
            },
            WorkerCommand::VerifyHandle { step, handle, offset, size } => {
                CommandView::VerifyHandle { step, handle, offset, size }
            },
            WorkerCommand::Stop { step } => CommandView::Stop { step },
        }
    }
}

/// The number of the step that a command belongs to.
pub open spec fn step_of_command(c: CommandView) -> u64 {
    match c {
        CommandView::Open { step, .. } => step,
        CommandView::Close { step, .. } => step,
        CommandView::ReadAt { step, .. } => step,
        CommandView::WriteAt { step, .. } => step,
        CommandView::Seek { step, .. } => step,
        CommandView::ReadSeq { step, .. } => step,
        CommandView::WriteSeq { step, .. } => step,
        CommandView::Fsync { step, .. } => step,
        CommandView::Truncate { step, .. } => step,
        CommandView::Unlink { step, .. } => step,
        CommandView::Rename { step, .. } => step,
        CommandView::WriteStdout { step, .. } => step,
        CommandView::WriteStderr { step, .. } => step,
        CommandView::SwitchLogSink { step, .. } => step,
        CommandView::WriteLog { step, .. } => step,
        CommandView::VerifyPath { step, .. } => step,
        CommandView::VerifyHandle { step, .. } => step,
        CommandView::Stop { step } => step,
    }
}

pub open spec fn flags_text(f: OpenFlags) -> Seq<char> {
    "OpenFlags { read: "@ + bool_text(f.read) + ", write: "@ + bool_text(f.write) + ", append: "@
        + bool_text(f.append) + ", truncate: "@ + bool_text(f.truncate) + ", create: "@ + bool_text(
        f.create,
    ) + ", create_new: "@ + bool_text(f.create_new) + " }"@
}

pub open spec fn sink_text(s: LogSink) -> Seq<char> {
    match s {
        LogSink::Stderr => "Stderr"@,
        LogSink::Handle(worker, handle) => "Handle("@ + dec(worker as nat) + ", "@ + dec(
            handle as nat,
        ) + ")"@,
    }
}

/// The front of a command's text: its name and its step.
pub open spec fn front_text(name: Seq<char>, step: u64) -> Seq<char> {
    name + " { step: "@ + dec(step as nat)
}

/// The front of the text of a command on a handle.
pub open spec fn on_handle_text(name: Seq<char>, step: u64, handle: u64) -> Seq<char> {
    front_text(name, step) + ", handle: "@ + dec(handle as nat)
}

pub open spec fn data_text(data: Seq<u8>) -> Seq<char> {
    ", data: ["@ + byte_list(data) + "] }"@
}

/// A command with the names of its fields.
pub open spec fn command_text(c: CommandView) -> Seq<char> {
    match c {
        CommandView::Open { step, handle, path, flags } => on_handle_text("Open"@, step, handle)
            + ", path: "@ + quoted_path(path) + ", flags: "@ + flags_text(flags) + " }"@,
        CommandView::Close { step, handle } => on_handle_text("Close"@, step, handle) + " }"@,
        CommandView::ReadAt { step, handle, offset, size } => on_handle_text(
            "ReadAt"@,
            step,
            handle,
        ) + ", offset: "@ + dec(offset as nat) + ", size: "@ + dec(size as nat) + " }"@,
        CommandView::WriteAt { step, handle, offset, data } => on_handle_text(
            "WriteAt"@,
            step,
            handle,
        ) + ", offset: "@ + dec(offset as nat) + data_text(data),
        CommandView::Seek { step, handle, offset } => on_handle_text("Seek"@, step, handle)
            + ", offset: "@ + dec(offset as nat) + " }"@,
        CommandView::ReadSeq { step, handle, size } => on_handle_text("ReadSeq"@, step, handle)
            + ", size: "@ + dec(size as nat) + " }"@,
        CommandView::WriteSeq { step, handle, data } => on_handle_text("WriteSeq"@, step, handle)
            + data_text(data),
        CommandView::Fsync { step, handle } => on_handle_text("Fsync"@, step, handle) + " }"@,
        CommandView::Truncate { step, handle, len } => on_handle_text("Truncate"@, step, handle)
            + ", size: "@ + dec(len as nat) + " }"@,
        CommandView::Unlink { step, path } => front_text("Unlink"@, step) + ", path: "@
            + quoted_path(path) + " }"@,
        CommandView::Rename { step, from, to } => front_text("Rename"@, step) + ", from: "@
            + quoted_path(from) + ", to: "@ + quoted_path(to) + " }"@,
        CommandView::WriteStdout { step, data } => front_text("WriteStdout"@, step) + data_text(
            data,
        ),
        CommandView::WriteStderr { step, data } => front_text("WriteStderr"@, step) + data_text(
            data,
        ),
        CommandView::SwitchLogSink { step, sink } => front_text("SwitchLogSink"@, step)
            + ", sink: "@ + sink_text(sink) + " }"@,
        CommandView::WriteLog { step, data } => front_text("WriteLog"@, step) + data_text(data),
        CommandView::VerifyPath { step, path } => front_text("VerifyPath"@, step) + ", path: "@
            + quoted_path(path) + " }"@,
        CommandView::VerifyHandle { step, handle, offset, size } => on_handle_text(
            "VerifyHandle"@,
            step,
            handle,
        ) + ", offset: "@ + dec(offset as nat) + ", size: "@ + dec(size as nat) + " }"@,
        CommandView::Stop { step } => front_text("Stop"@, step) + " }"@,
    }
}

fn front(name: &str, step: u64) -> (s: String)
    ensures
        s@ == front_text(name@, step),
{
    let mut s = name.to_string();
    s.append(" { step: ");
    push_dec(&mut s, step);
    s
}

fn on_handle(name: &str, step: u64, handle: u64) -> (s: String)
    ensures
        s@ == on_handle_text(name@, step, handle),
{
    let mut s = front(name, step);
    s.append(", handle: ");
    push_dec(&mut s, handle);
    s
}

fn with_field(s: String, field: &str, n: u64) -> (out: String)
    ensures
        out@ == s@ + field@ + dec(n as nat),
{
    let mut out = s;
    out.append(field);
    push_dec(&mut out, n);
    out
}

fn with_data(s: String, data: &Vec<u8>) -> (out: String)
    ensures
        out@ == s@ + data_text(data@),
{
    let ghost before = s@;
    let mut out = s;
    out.append(", data: [");
    push_byte_list(&mut out, data.as_slice());
    out.append("] }");
    assert(out@ =~= before + data_text(data@));
    out
}

fn flags_debug(f: OpenFlags) -> (s: String)
    ensures
        s@ == flags_text(f),
{
    "OpenFlags { read: ".to_string().concat(bool_str(f.read)).concat(", write: ").concat(
        bool_str(f.write),
    ).concat(", append: ").concat(bool_str(f.append)).concat(", truncate: ").concat(
        bool_str(f.truncate),
    ).concat(", create: ").concat(bool_str(f.create)).concat(", create_new: ").concat(
        bool_str(f.create_new),
    ).concat(" }")
}

fn sink_debug(sink: LogSink) -> (s: String)
    ensures
        s@ == sink_text(sink),
{
    match sink {
        LogSink::Stderr => "Stderr".to_string(),
        LogSink::Handle(worker, handle) => {
            let mut s = "Handle(".to_string();
            push_dec(&mut s, worker as u64);
            s.append(", ");
            push_dec(&mut s, handle);
            s.concat(")")
        },
    }
}

impl WorkerCommand {
    pub fn step(&self) -> (n: u64)
        ensures
            n == step_of_command(self@),
    {
        match self {
            WorkerCommand::Open { step, .. } => *step,
            WorkerCommand::Close { step, .. } => *step,
            WorkerCommand::ReadAt { step, .. } => *step,
            WorkerCommand::WriteAt { step, .. } => *step,
            WorkerCommand::Seek { step, .. } => *step,
            WorkerCommand::ReadSeq { step, .. } => *step,
            WorkerCommand::WriteSeq { step, .. } => *step,
            WorkerCommand::Fsync { step, .. } => *step,
            WorkerCommand::Truncate { step, .. } => *step,
            WorkerCommand::Unlink { step, .. } => *step,
            WorkerCommand::Rename { step, .. } => *step,
            WorkerCommand::WriteStdout { step, .. } => *step,
            WorkerCommand::WriteStderr { step, .. } => *step,
            WorkerCommand::SwitchLogSink { step, .. } => *step,
            WorkerCommand::WriteLog { step, .. } => *step,
            WorkerCommand::VerifyPath { step, .. } => *step,
            WorkerCommand::VerifyHandle { step, .. } => *step,
            WorkerCommand::Stop { step } => *step,
        }
    }

    pub fn debug(&self) -> (s: String)
        ensures
            s@ == command_text(self@),
    {
        match self {
            WorkerCommand::Open { step, handle, path, flags } => on_handle(
                "Open",
                *step,
                *handle,
            ).concat(", path: ").concat(quote_path(path.as_str()).as_str()).concat(
                ", flags: ",
            ).concat(flags_debug(*flags).as_str()).concat(" }"),
            WorkerCommand::Close { step, handle } => on_handle("Close", *step, *handle).concat(
                " }",
            ),
            WorkerCommand::ReadAt { step, handle, offset, size } => with_field(
                with_field(on_handle("ReadAt", *step, *handle), ", offset: ", *offset),
                ", size: ",
                *size as u64,
            ).concat(" }"),
            WorkerCommand::WriteAt { step, handle, offset, data } => with_data(
                with_field(on_handle("WriteAt", *step, *handle), ", offset: ", *offset),
                data,
            ),
            WorkerCommand::Seek { step, handle, offset } => with_field(
                on_handle("Seek", *step, *handle),
                ", offset: ",
                *offset,
            ).concat(" }"),
            WorkerCommand::ReadSeq { step, handle, size } => with_field(
                on_handle("ReadSeq", *step, *handle),
                ", size: ",
                *size as u64,
            ).concat(" }"),
            WorkerCommand::WriteSeq { step, handle, data } => with_data(
                on_handle("WriteSeq", *step, *handle),
                data,
            ),
            WorkerCommand::Fsync { step, handle } => on_handle("Fsync", *step, *handle).concat(
                " }",
            ),
            WorkerCommand::Truncate { step, handle, len } => with_field(
                on_handle("Truncate", *step, *handle),
                ", size: ",
                *len,
            ).concat(" }"),
            WorkerCommand::Unlink { step, path } => front("Unlink", *step).concat(
                ", path: ",
            ).concat(quote_path(path.as_str()).as_str()).concat(" }"),
            WorkerCommand::Rename { step, from, to } => front("Rename", *step).concat(
                ", from: ",
            ).concat(quote_path(from.as_str()).as_str()).concat(", to: ").concat(
                quote_path(to.as_str()).as_str(),
            ).concat(" }"),
            WorkerCommand::WriteStdout { step, data } => with_data(
                front("WriteStdout", *step),
                data,
            ),
            WorkerCommand::WriteStderr { step, data } => with_data(
                front("WriteStderr", *step),
                data,
            ),
            WorkerCommand::SwitchLogSink { step, sink } => front("SwitchLogSink", *step).concat(
                ", sink: ",
            ).concat(sink_debug(*sink).as_str()).concat(" }"),
            WorkerCommand::WriteLog { step, data } => with_data(front("WriteLog", *step), data),
            WorkerCommand::VerifyPath { step, path } => front("VerifyPath", *step).concat(
                ", path: ",
            ).concat(quote_path(path.as_str()).as_str()).concat(" }"),
            WorkerCommand::VerifyHandle { step, handle, offset, size } => with_field(
                with_field(on_handle("VerifyHandle", *step, *handle), ", offset: ", *offset),
                ", size: ",
                *size as u64,
            ).concat(" }"),
            WorkerCommand::Stop { step } => front("Stop", *step).concat(" }"),
        }
    }
}

/// What a worker answers.
pub struct WorkerReply {
    pub step: u64,
    pub worker: usize,
    pub raw_fd: Option<i64>,
    pub bytes: usize,
    pub data: Vec<u8>,
    pub error: Option<String>,
}

#[verifier::ext_equal]
pub struct ReplyView {
    pub step: u64,
    pub worker: usize,
    pub raw_fd: Option<i64>,
    pub bytes: usize,
    pub data: Seq<u8>,
    pub error: Option<Seq<char>>,
}

impl View for WorkerReply {
    type V = ReplyView;

    open spec fn view(&self) -> ReplyView {
        ReplyView {
            step: self.step,
            worker: self.worker,
            raw_fd: self.raw_fd,
            bytes: self.bytes,
            data: self.data@,
            error: opt_text(self.error),
        }
    }
}

/// What is to be done to files before a command can be answered.
pub enum FileCall {
    /// Make the directory, make the file where it is to be created and is not there, and
    /// open it.
    Open { dir: Option<String>, path: String, flags: OpenFlags },
    Close { handle: u64 },
    /// Read at most `size` bytes, from `at` on or from where the file is.
    Read { handle: u64, at: Option<u64>, size: usize },
    /// Write all bytes, from `at` on or from where the file is.
    Write { handle: u64, at: Option<u64>, data: Vec<u8> },
    Seek { handle: u64, offset: u64 },
    Sync { handle: u64 },
    SetLen { handle: u64, len: u64 },
    Remove { path: String },
    Rename { from: String, to: String },
    Stdout { data: Vec<u8> },
    Stderr { data: Vec<u8> },
    ReadAll { path: String },
}

#[verifier::ext_equal]
pub enum CallView {
    Open { dir: Option<Seq<char>>, path: Seq<char>, flags: OpenFlags },
    Close { handle: u64 },
    Read { handle: u64, at: Option<u64>, size: usize },
    Write { handle: u64, at: Option<u64>, data: Seq<u8> },
    Seek { handle: u64, offset: u64 },
    Sync { handle: u64 },
    SetLen { handle: u64, len: u64 },
    Remove { path: Seq<char> },
    Rename { from: Seq<char>, to: Seq<char> },
    Stdout { data: Seq<u8> },
    Stderr { data: Seq<u8> },
    ReadAll { path: Seq<char> },
}

impl View for FileCall {
    type V = CallView;

    open spec fn view(&self) -> CallView {
        match *self {
            FileCall::Open { dir, path, flags } => CallView::Open {
                dir: opt_text(dir),
                path: path@,
                flags,
            },
            FileCall::Close { handle } => CallView::Close { handle },
            FileCall::Read { handle, at, size } => CallView::Read { handle, at, size },
            FileCall::Write { handle, at, data } => CallView::Write { handle, at, data: data@ },
            FileCall::Seek { handle, offset } => CallView::Seek { handle, offset },
            FileCall::Sync { handle } => CallView::Sync { handle },
            FileCall::SetLen { handle, len } => CallView::SetLen { handle, len },
            FileCall::Remove { path } => CallView::Remove { path: path@ },
            FileCall::Rename { from, to } => CallView::Rename { from: from@, to: to@ },
            FileCall::Stdout { data } => CallView::Stdout { data: data@ },
            FileCall::Stderr { data } => CallView::Stderr { data: data@ },
            FileCall::ReadAll { path } => CallView::ReadAll { path: path@ },
        }
    }
}

/// What a call came to: the descriptor, the place in the file and the bytes that were read,
/// as far as it gives any; or what went wrong.
pub enum CallOutcome {
    Done { raw_fd: Option<i64>, pos: u64, data: Vec<u8> },
    Failed { message: String, not_found: bool },
}

/// A worker: its number, its open handles and where its log goes.
pub struct Worker {
    pub id: usize,
    pub handles: Vec<HandleMeta>,
    pub log_sink: LogSink,
}

#[verifier::ext_equal]
pub struct WorkerView {
    pub id: usize,
    pub handles: Map<(usize, u64), HandleView>,
    pub sink: LogSink,
}

impl View for Worker {
    type V = WorkerView;

    open spec fn view(&self) -> WorkerView {
        WorkerView { id: self.id, handles: handle_map(self.handles@), sink: self.log_sink }
    }
}

/// The handle that a command works through, if it does.
pub open spec fn handle_used(v: WorkerView, c: CommandView) -> Option<u64> {
    match c {
        CommandView::Close { handle, .. } => Some(handle),
        CommandView::ReadAt { handle, .. } => Some(handle),
        CommandView::WriteAt { handle, .. } => Some(handle),
        CommandView::Seek { handle, .. } => Some(handle),
        CommandView::ReadSeq { handle, .. } => Some(handle),
        CommandView::WriteSeq { handle, .. } => Some(handle),
        CommandView::Fsync { handle, .. } => Some(handle),
        CommandView::Truncate { handle, .. } => Some(handle),
        CommandView::VerifyHandle { handle, .. } => Some(handle),
        CommandView::WriteLog { .. } => match v.sink {
            LogSink::Stderr => None,
            LogSink::Handle(_, handle) => Some(handle),
        },
        _ => None,
    }
}

/// Whether a command works through a handle that is not open.
pub open spec fn lost(v: WorkerView, c: CommandView) -> bool {
    handle_used(v, c) matches Some(h) && !v.handles.dom().contains((v.id, h))
}

/// What a command asks of the files; nothing where its handle is not open.
pub open spec fn planned(v: WorkerView, c: CommandView) -> Option<CallView> {
    if lost(v, c) {
        None
    } else {
        match c {
            CommandView::Open { path, flags, .. } => Some(
                CallView::Open { dir: parent_of(path), path, flags },
            ),
            CommandView::Close { handle, .. } => Some(CallView::Close { handle }),
            CommandView::ReadAt { handle, offset, size, .. } => Some(
                CallView::Read { handle, at: Some(offset), size },
            ),
            CommandView::WriteAt { handle, offset, data, .. } => Some(
                CallView::Write { handle, at: Some(offset), data },
            ),
            CommandView::Seek { handle, offset, .. } => Some(CallView::Seek { handle, offset }),
            CommandView::ReadSeq { handle, size, .. } => Some(
                CallView::Read { handle, at: None, size },
            ),
            CommandView::WriteSeq { handle, data, .. } => Some(
                CallView::Write { handle, at: None, data },
            ),
            CommandView::Fsync { handle, .. } => Some(CallView::Sync { handle }),
            CommandView::Truncate { handle, len, .. } => Some(CallView::SetLen { handle, len }),
            CommandView::Unlink { path, .. } => Some(CallView::Remove { path }),
            CommandView::Rename { from, to, .. } => Some(CallView::Rename { from, to }),
            CommandView::WriteStdout { data, .. } => Some(CallView::Stdout { data }),
            CommandView::WriteStderr { data, .. } => Some(CallView::Stderr { data }),
            CommandView::SwitchLogSink { .. } => None,
            CommandView::WriteLog { data, .. } => match v.sink {
                LogSink::Stderr => Some(CallView::Stderr { data }),
                LogSink::Handle(_, handle) => Some(CallView::Write { handle, at: None, data }),
            },
            CommandView::VerifyPath { path, .. } => Some(CallView::ReadAll { path }),
            CommandView::VerifyHandle { handle, offset, size, .. } => Some(
                CallView::Read { handle, at: Some(offset), size },
            ),
            CommandView::Stop { .. } => None,
        }
    }
}

pub open spec fn replied(
    v: WorkerView,
    step: u64,
    raw_fd: Option<i64>,
    bytes: nat,
    data: Seq<u8>,
) -> ReplyView {
    ReplyView { step, worker: v.id, raw_fd, bytes: bytes as usize, data, error: None }
}

pub open spec fn refused(v: WorkerView, step: u64, error: Seq<char>) -> ReplyView {
    ReplyView {
        step,
        worker: v.id,
        raw_fd: None,
        bytes: 0,
        data: Seq::empty(),
        error: Some(error),
    }
}

/// The worker with one of its handles at another place.
pub open spec fn at_place(v: WorkerView, handle: u64, pos: u64) -> WorkerView {
    WorkerView {
        handles: v.handles.insert(
            (v.id, handle),
            HandleView { pos, ..v.handles[(v.id, handle)] },
        ),
        ..v
    }
}

/// The place of a handle, some bytes further on.
pub open spec fn further(v: WorkerView, handle: u64, n: nat) -> int {
    v.handles[(v.id, handle)].pos + n
}

/// The worker after a call that succeeded, and its reply.
pub open spec fn answered(
    v: WorkerView,
    c: CommandView,
    raw_fd: Option<i64>,
    pos: u64,
    read: Seq<u8>,
) -> (WorkerView, ReplyView) {
    let step = step_of_command(c);
    let none = Seq::<u8>::empty();
    match c {
        CommandView::Open { handle, path, .. } => (
            WorkerView {
                handles: v.handles.insert((v.id, handle), HandleView { path, pos: 0 }),
                ..v
            },
            replied(v, step, raw_fd, 0, none),
        ),
        CommandView::ReadAt { .. } => (v, replied(v, step, raw_fd, read.len(), read)),
        CommandView::VerifyHandle { .. } => (v, replied(v, step, raw_fd, read.len(), read)),
        CommandView::WriteAt { data, .. } => (v, replied(v, step, raw_fd, data.len(), none)),
        CommandView::Seek { handle, .. } => (
            at_place(v, handle, pos),
            replied(v, step, raw_fd, 0, none),
        ),
        CommandView::ReadSeq { handle, .. } => (
            at_place(v, handle, further(v, handle, read.len()) as u64),
            replied(v, step, raw_fd, read.len(), read),
        ),
        CommandView::WriteSeq { handle, data, .. } => (
            at_place(v, handle, further(v, handle, data.len()) as u64),
            replied(v, step, raw_fd, data.len(), none),
        ),
        CommandView::Fsync { .. } => (v, replied(v, step, raw_fd, 0, none)),
        CommandView::Truncate { .. } => (v, replied(v, step, raw_fd, 0, none)),
        CommandView::WriteStdout { data, .. } => (v, replied(v, step, None, data.len(), none)),
        CommandView::WriteStderr { data, .. } => (v, replied(v, step, None, data.len(), none)),
        CommandView::WriteLog { data, .. } => (
            v,
            replied(
                v,
                step,
                if v.sink is Stderr {
                    None
                } else {
                    raw_fd
                },
                data.len(),
                none,
            ),
        ),
        CommandView::VerifyPath { .. } => (v, replied(v, step, None, read.len(), read)),
        _ => (v, replied(v, step, None, 0, none)),
    }
}

/// The worker after a command, and its reply.
pub open spec fn executed(v: WorkerView, c: CommandView, outcome: CallOutcome) -> (
    WorkerView,
    ReplyView,
) {
    let step = step_of_command(c);
    if lost(v, c) {
        (v, refused(v, step, "unknown handle "@ + dec(handle_used(v, c)->0 as nat)))
    } else {
        match c {
            CommandView::Close { handle, .. } => (
                WorkerView { handles: v.handles.remove((v.id, handle)), ..v },
                replied(v, step, None, 0, Seq::empty()),
            ),
            CommandView::SwitchLogSink { sink, .. } => (
                WorkerView { sink, ..v },
                replied(v, step, None, 0, Seq::empty()),
            ),
            CommandView::Stop { .. } => (v, replied(v, step, None, 0, Seq::empty())),
            _ => match outcome {
                CallOutcome::Failed { message, not_found } => if c is Unlink && not_found {
                    (v, replied(v, step, None, 0, Seq::empty()))
                } else {
                    (v, refused(v, step, message@))
                },
                CallOutcome::Done { raw_fd, pos, data } => answered(v, c, raw_fd, pos, data@),
            },
        }
    }
}

/// Whether the place of a handle stays a number after a command.
pub open spec fn place_fits(v: WorkerView, c: CommandView, outcome: CallOutcome) -> bool {
    outcome matches CallOutcome::Done { data: read, .. } ==> match c {
        CommandView::ReadSeq { handle, .. } => further(v, handle, read@.len()) <= u64::MAX,
        CommandView::WriteSeq { handle, data, .. } => further(v, handle, data.len()) <= u64::MAX,
        _ => true,
    }
}

impl Worker {
    pub fn new(id: usize) -> (w: Self)
        ensures
            w@ == (WorkerView { id, handles: Map::empty(), sink: LogSink::Stderr }),
    {
        let w = Worker { id, handles: Vec::new(), log_sink: LogSink::Stderr };
        assert(w@.handles =~= Map::empty());
        w
    }

    fn handle_in(&self, cmd: &WorkerCommand) -> (h: Option<u64>)
        ensures
            h == handle_used(self@, cmd@),
    {
        match cmd {
            WorkerCommand::Close { handle, .. } => Some(*handle),
            WorkerCommand::ReadAt { handle, .. } => Some(*handle),
            WorkerCommand::WriteAt { handle, .. } => Some(*handle),
            WorkerCommand::Seek { handle, .. } => Some(*handle),
            WorkerCommand::ReadSeq { handle, .. } => Some(*handle),
            WorkerCommand::WriteSeq { handle, .. } => Some(*handle),
            WorkerCommand::Fsync { handle, .. } => Some(*handle),
            WorkerCommand::Truncate { handle, .. } => Some(*handle),
            WorkerCommand::VerifyHandle { handle, .. } => Some(*handle),
            WorkerCommand::WriteLog { .. } => match self.log_sink {
                LogSink::Stderr => None,
                LogSink::Handle(_, handle) => Some(handle),
            },
            _ => None,
        }
    }

    /// What a command asks of the files.
    pub fn plan(&self, cmd: &WorkerCommand) -> (call: Option<FileCall>)
        ensures
            (match call {
                Some(call) => Some(call@),
                None => None,
            }) == planned(self@, cmd@),
    {
        if let Some(handle) = self.handle_in(cmd) {
            if handle_index(&self.handles, self.id, handle).is_none() {
                return None;
            }
        }
        match cmd {
            WorkerCommand::Open { path, flags, .. } => Some(
                FileCall::Open {
                    dir: parent(path.as_str()),
                    path: path.clone(),
                    flags: *flags,
                },
            ),
            WorkerCommand::Close { handle, .. } => Some(FileCall::Close { handle: *handle }),
            WorkerCommand::ReadAt { handle, offset, size, .. } => Some(
                FileCall::Read { handle: *handle, at: Some(*offset), size: *size },
            ),
            WorkerCommand::WriteAt { handle, offset, data, .. } => Some(
                FileCall::Write { handle: *handle, at: Some(*offset), data: bytes_copy(data) },
            ),
            WorkerCommand::Seek { handle, offset, .. } => Some(
                FileCall::Seek { handle: *handle, offset: *offset },
            ),
            WorkerCommand::ReadSeq { handle, size, .. } => Some(
                FileCall::Read { handle: *handle, at: None, size: *size },
            ),
            WorkerCommand::WriteSeq { handle, data, .. } => Some(
                FileCall::Write { handle: *handle, at: None, data: bytes_copy(data) },
            ),
            WorkerCommand::Fsync { handle, .. } => Some(FileCall::Sync { handle: *handle }),
            WorkerCommand::Truncate { handle, len, .. } => Some(
                FileCall::SetLen { handle: *handle, len: *len },
            ),
            WorkerCommand::Unlink { path, .. } => Some(FileCall::Remove { path: path.clone() }),
            WorkerCommand::Rename { from, to, .. } => Some(
                FileCall::Rename { from: from.clone(), to: to.clone() },
            ),
            WorkerCommand::WriteStdout { data, .. } => Some(
                FileCall::Stdout { data: bytes_copy(data) },
            ),
            WorkerCommand::WriteStderr { data, .. } => Some(
                FileCall::Stderr { data: bytes_copy(data) },
            ),
            WorkerCommand::SwitchLogSink { .. } => None,
            WorkerCommand::WriteLog { data, .. } => match self.log_sink {
                LogSink::Stderr => Some(FileCall::Stderr { data: bytes_copy(data) }),
                LogSink::Handle(_, handle) => Some(
                    FileCall::Write { handle, at: None, data: bytes_copy(data) },
                ),
            },
            WorkerCommand::VerifyPath { path, .. } => Some(
                FileCall::ReadAll { path: path.clone() },
            ),
            WorkerCommand::VerifyHandle { handle, offset, size, .. } => Some(
                FileCall::Read { handle: *handle, at: Some(*offset), size: *size },
            ),
            WorkerCommand::Stop { .. } => None,
        }
    }

    fn make_reply(&self, step: u64, raw_fd: Option<i64>, bytes: usize, data: Vec<u8>) -> (r:
        WorkerReply)
        ensures
            r@ == replied(self@, step, raw_fd, bytes as nat, data@),
    {
        WorkerReply { step, worker: self.id, raw_fd, bytes, data, error: None }
    }

    fn done(&self, step: u64, raw_fd: Option<i64>, bytes: usize) -> (r: WorkerReply)
        ensures
            r@ == replied(self@, step, raw_fd, bytes as nat, Seq::empty()),
    {
        let none: Vec<u8> = Vec::new();
        assert(none@ =~= Seq::empty());
        self.make_reply(step, raw_fd, bytes, none)
    }

    fn make_err(&self, step: u64, error: String) -> (r: WorkerReply)
        ensures
            r@ == refused(self@, step, error@),
    {
        let none: Vec<u8> = Vec::new();
        assert(none@ =~= Seq::empty());
        WorkerReply {
            step,
            worker: self.id,
            raw_fd: None,
            bytes: 0,
            data: none,
            error: Some(error),
        }
    }

    fn set_handle(&mut self, handle: u64, path: String, pos: u64)
        ensures
            final(self)@ == (WorkerView {
                handles: old(self)@.handles.insert(
                    (old(self).id, handle),
                    HandleView { path: path@, pos },
                ),
                ..old(self)@
            }),
    {
        let mut handles = handles_without(&self.handles, self.id, handle);
        let meta = HandleMeta { worker: self.id, handle, path, pos };
        proof {
            lemma_handle_pushed(handles@, meta);
        }
        handles.push(meta);
        self.handles = handles;
        assert(self@.handles =~= old(self)@.handles.insert(
            (old(self).id, handle),
            HandleView { path: path@, pos },
        ));
    }

    /// The place and the path of an open handle.
    fn handle_mut(&self, handle: u64) -> (r: (String, u64))
        requires
            self@.handles.dom().contains((self.id, handle)),
        ensures
            (HandleView { path: r.0@, pos: r.1 }) == self@.handles[(self.id, handle)],
    {
        match handle_index(&self.handles, self.id, handle) {
            Some(i) => (self.handles[i].path.clone(), self.handles[i].pos),
            None => (String::new(), 0),
        }
    }

    /// Carries out a command: its effect on the worker, and the reply, given what the call
    /// came to that it asked for.
    pub fn execute(&mut self, cmd: WorkerCommand, outcome: CallOutcome) -> (r: WorkerReply)
        requires
            !lost(old(self)@, cmd@) ==> place_fits(old(self)@, cmd@, outcome),
        ensures
            (final(self)@, r@) == executed(old(self)@, cmd@, outcome),
    {
        let step: u64 = cmd.step();
        if let Some(handle) = self.handle_in(&cmd) {
            if handle_index(&self.handles, self.id, handle).is_none() {
                let mut s = "unknown handle ".to_string();
                push_dec(&mut s, handle);
                return self.make_err(step, s);
            }
        }
        match cmd {
            WorkerCommand::Close { handle, .. } => {
                self.handles = handles_without(&self.handles, self.id, handle);
                return self.done(step, None, 0);
            },
            WorkerCommand::SwitchLogSink { sink, .. } => {
                self.log_sink = sink;
                return self.done(step, None, 0);
            },
            WorkerCommand::Stop { .. } => {
                return self.done(step, None, 0);
            },
            _ => {},
        }
        let (raw_fd, pos, read) = match outcome {
            CallOutcome::Failed { message, not_found } => {
                if let WorkerCommand::Unlink { .. } = cmd {
                    if not_found {
                        return self.done(step, None, 0);
                    }
                }
                return self.make_err(step, message);
            },
            CallOutcome::Done { raw_fd, pos, data } => (raw_fd, pos, data),
        };
        match cmd {
            WorkerCommand::Open { handle, path, .. } => {
                self.set_handle(handle, path, 0);
                self.done(step, raw_fd, 0)
            },
            WorkerCommand::ReadAt { .. } => {
                let n: usize = read.len();
                self.make_reply(step, raw_fd, n, read)
            },
            WorkerCommand::VerifyHandle { .. } => {
                let n: usize = read.len();
                self.make_reply(step, raw_fd, n, read)
            },
            WorkerCommand::WriteAt { data, .. } => self.done(step, raw_fd, data.len()),
            WorkerCommand::Seek { handle, .. } => {
                let (path, _) = self.handle_mut(handle);
                self.set_handle(handle, path, pos);
                self.done(step, raw_fd, 0)
            },
            WorkerCommand::ReadSeq { handle, .. } => {
                let n: usize = read.len();
                let (path, place) = self.handle_mut(handle);
                self.set_handle(handle, path, place + n as u64);
                self.make_reply(step, raw_fd, n, read)
            },
            WorkerCommand::WriteSeq { handle, data, .. } => {
                let n: usize = data.len();
                let (path, place) = self.handle_mut(handle);
                self.set_handle(handle, path, place + n as u64);
                self.done(step, raw_fd, n)
            },
            WorkerCommand::Fsync { .. } => self.done(step, raw_fd, 0),
            WorkerCommand::Truncate { .. } => self.done(step, raw_fd, 0),
            WorkerCommand::WriteStdout { data, .. } => self.done(step, None, data.len()),
            WorkerCommand::WriteStderr { data, .. } => self.done(step, None, data.len()),
            WorkerCommand::WriteLog { data, .. } => match self.log_sink {
                LogSink::Stderr => self.done(step, None, data.len()),
                LogSink::Handle(_, _) => self.done(step, raw_fd, data.len()),
            },
            WorkerCommand::VerifyPath { .. } => {
                let n: usize = read.len();
                self.make_reply(step, None, n, read)
            },
            _ => self.done(step, None, 0),
        }
    }

    /// Whether `execute` can count the place of the handle that the command moves.
    pub fn can_execute(&self, cmd: &WorkerCommand, outcome: &CallOutcome) -> (r: bool)
        ensures
            r == (!lost(self@, cmd@) ==> place_fits(self@, cmd@, *outcome)),
    {
        let n: usize = match (cmd, outcome) {
            (WorkerCommand::ReadSeq { .. }, CallOutcome::Done { data, .. }) => data.len(),
            (WorkerCommand::WriteSeq { data, .. }, CallOutcome::Done { .. }) => data.len(),
            _ => {
                return true;
            },
        };
        let handle: u64 = match self.handle_in(cmd) {
            Some(handle) => handle,
            None => 0,
        };
        match handle_index(&self.handles, self.id, handle) {
            Some(i) => self.handles[i].pos <= u64::MAX - n as u64,
            None => true,
        }
    }
}

/// A worker answers every command with the command's step and its own number.
pub proof fn law_replies_name_their_step(v: WorkerView, c: CommandView, outcome: CallOutcome)
    ensures
        executed(v, c, outcome).1.step == step_of_command(c),
        executed(v, c, outcome).1.worker == v.id,
{
}

/// A command that is refused leaves the worker as it was.
pub proof fn law_refused_commands_change_nothing(
    v: WorkerView,
    c: CommandView,
    outcome: CallOutcome,
)
    requires
        executed(v, c, outcome).1.error is Some,
    ensures
        executed(v, c, outcome).0 == v,
{
}

/// Only opening and closing change which handles a worker has.
pub proof fn law_handles_open_and_close(v: WorkerView, c: CommandView, outcome: CallOutcome, h: u64)
    requires
        c !is Open,
        c !is Close,
    ensures
        executed(v, c, outcome).0.handles.dom().contains((v.id, h)) == v.handles.dom().contains(
            (v.id, h),
        ),
{
}

} // verus!
