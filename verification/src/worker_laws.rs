//! What a worker asks of the files for a command, and what it answers.

use vstd::prelude::*;

use crate::paths::path_parts;
use crate::worker::{
    executed, place_fits, planned, CallOutcome, CallView, CommandView, LogSink, WorkerView,
};

verus! {

/// Whether the command works through the handle.
pub open spec fn goes_through(v: WorkerView, c: CommandView, h: u64) -> bool {
    match c {
        CommandView::Close { handle, .. } => handle == h,
        CommandView::ReadAt { handle, .. } => handle == h,
        CommandView::WriteAt { handle, .. } => handle == h,
        CommandView::Seek { handle, .. } => handle == h,
        CommandView::ReadSeq { handle, .. } => handle == h,
        CommandView::WriteSeq { handle, .. } => handle == h,
        CommandView::Fsync { handle, .. } => handle == h,
        CommandView::Truncate { handle, .. } => handle == h,
        CommandView::VerifyHandle { handle, .. } => handle == h,
        CommandView::WriteLog { .. } => v.sink matches LogSink::Handle(_, handle) && handle == h,
        _ => false,
    }
}

/// A command through a handle that the worker does not have is refused: it asks nothing of the
/// files, is answered with an error and changes nothing. A handle of another worker does not
/// count.
pub proof fn law_unknown_handles_are_refused(
    v: WorkerView,
    c: CommandView,
    h: u64,
    outcome: CallOutcome,
)
    requires
        goes_through(v, c, h),
        !v.handles.dom().contains((v.id, h)),
    ensures
        planned(v, c) is None,
        executed(v, c, outcome).1.error is Some,
        executed(v, c, outcome).1.bytes == 0,
        executed(v, c, outcome).1.data.len() == 0,
        executed(v, c, outcome).0 == v,
{
}

/// Bytes that are to be written are handed on as they are: at the place that the command names,
/// or at that of the handle where it names none.
pub proof fn law_writes_are_handed_on(v: WorkerView, c: CommandView, h: u64)
    requires
        goes_through(v, c, h),
        v.handles.dom().contains((v.id, h)),
    ensures
        match c {
            CommandView::WriteAt { offset, data, .. } => planned(v, c) matches Some(
                CallView::Write { handle, at, data: bytes },
            ) && handle == h && at == Some(offset) && bytes == data,
            CommandView::WriteSeq { data, .. } => planned(v, c) matches Some(
                CallView::Write { handle, at, data: bytes },
            ) && handle == h && at is None && bytes == data,
            CommandView::WriteLog { data, .. } => planned(v, c) matches Some(
                CallView::Write { handle, at, data: bytes },
            ) && handle == h && at is None && bytes == data,
            CommandView::ReadAt { offset, size, .. } => planned(v, c) matches Some(
                CallView::Read { handle, at, size: asked },
            ) && handle == h && at == Some(offset) && asked == size,
            CommandView::VerifyHandle { offset, size, .. } => planned(v, c) matches Some(
                CallView::Read { handle, at, size: asked },
            ) && handle == h && at == Some(offset) && asked == size,
            CommandView::ReadSeq { size, .. } => planned(v, c) matches Some(
                CallView::Read { handle, at, size: asked },
            ) && handle == h && at is None && asked == size,
            CommandView::Seek { offset, .. } => planned(v, c) matches Some(
                CallView::Seek { handle, offset: to },
            ) && handle == h && to == offset,
            CommandView::Truncate { len, .. } => planned(v, c) matches Some(
                CallView::SetLen { handle, len: to },
            ) && handle == h && to == len,
            CommandView::Fsync { .. } => planned(v, c) matches Some(CallView::Sync { handle })
                && handle == h,
            CommandView::Close { .. } => planned(v, c) matches Some(CallView::Close { handle })
                && handle == h,
            _ => true,
        },
{
}

/// Paths and standard output are handed on as they are; a file is opened with the directory
/// that it lies in. The log goes to stderr until it is switched.
pub proof fn law_paths_are_handed_on(v: WorkerView, c: CommandView)
    ensures
        match c {
            CommandView::Open { path, flags, .. } => planned(v, c) matches Some(
                CallView::Open { dir, path: asked, flags: how },
            ) && asked == path && how == flags && (dir matches Some(d) ==> path_parts(d)
                == path_parts(path).drop_last()) && (dir is None ==> path_parts(path).len() == 0
                || path_parts(path).last() == "/"@),
            CommandView::Unlink { path, .. } => planned(v, c) matches Some(
                CallView::Remove { path: asked },
            ) && asked == path,
            CommandView::Rename { from, to, .. } => planned(v, c) matches Some(
                CallView::Rename { from: a, to: b },
            ) && a == from && b == to,
            CommandView::VerifyPath { path, .. } => planned(v, c) matches Some(
                CallView::ReadAll { path: asked },
            ) && asked == path,
            CommandView::WriteStdout { data, .. } => planned(v, c) matches Some(
                CallView::Stdout { data: bytes },
            ) && bytes == data,
            CommandView::WriteStderr { data, .. } => planned(v, c) matches Some(
                CallView::Stderr { data: bytes },
            ) && bytes == data,
            CommandView::WriteLog { data, .. } => v.sink is Stderr ==> (planned(v, c) matches Some(
                CallView::Stderr { data: bytes },
            ) && bytes == data),
            CommandView::SwitchLogSink { .. } | CommandView::Stop { .. } => planned(v, c) is None,
            _ => true,
        },
{
    if let CommandView::Open { path, .. } = c {
        crate::text_laws::law_parents_lack_the_last_component(path);
    }
}

/// What was read is answered whole, and a write with the number of its bytes.
pub proof fn law_answers_carry_what_was_read(
    v: WorkerView,
    c: CommandView,
    raw_fd: Option<i64>,
    pos: u64,
    read: Vec<u8>,
)
    requires
        executed(v, c, CallOutcome::Done { raw_fd, pos, data: read }).1.error is None,
        read@.len() <= usize::MAX,
        match c {
            CommandView::WriteAt { data, .. } => data.len() <= usize::MAX,
            CommandView::WriteSeq { data, .. } => data.len() <= usize::MAX,
            CommandView::WriteLog { data, .. } => data.len() <= usize::MAX,
            CommandView::WriteStdout { data, .. } => data.len() <= usize::MAX,
            CommandView::WriteStderr { data, .. } => data.len() <= usize::MAX,
            _ => true,
        },
    ensures
        ({
            let reply = executed(v, c, CallOutcome::Done { raw_fd, pos, data: read }).1;
            match c {
                CommandView::ReadAt { .. }
                | CommandView::ReadSeq { .. }
                | CommandView::VerifyHandle { .. }
                | CommandView::VerifyPath { .. } => reply.data == read@ && reply.bytes
                    == read@.len(),
                CommandView::WriteAt { data, .. } => reply.bytes == data.len() && reply.data.len()
                    == 0,
                CommandView::WriteSeq { data, .. } => reply.bytes == data.len() && reply.data.len()
                    == 0,
                CommandView::WriteLog { data, .. } => reply.bytes == data.len() && reply.data.len()
                    == 0,
                CommandView::WriteStdout { data, .. } => reply.bytes == data.len()
                    && reply.data.len() == 0,
                CommandView::WriteStderr { data, .. } => reply.bytes == data.len()
                    && reply.data.len() == 0,
                _ => reply.bytes == 0 && reply.data.len() == 0,
            }
        }),
{
}

/// A call that failed is answered with its message. The one exception is a file that is to be
/// unlinked and is not there; closing, switching the log and stopping do not depend on a call.
pub proof fn law_failures_are_answered(
    v: WorkerView,
    c: CommandView,
    message: String,
    not_found: bool,
)
    requires
        planned(v, c) is Some,
        c !is Close,
    ensures
        ({
            let (after, reply) = executed(v, c, CallOutcome::Failed { message, not_found });
            &&& reply.error == if c is Unlink && not_found {
                None
            } else {
                Some(message@)
            }
            &&& after == v
            &&& reply.bytes == 0 && reply.data.len() == 0
        }),
{
}

/// A command that is handed on and succeeds is answered without an error.
pub proof fn law_successes_are_answered(
    v: WorkerView,
    c: CommandView,
    raw_fd: Option<i64>,
    pos: u64,
    read: Vec<u8>,
)
    requires
        planned(v, c) is Some || c is SwitchLogSink || c is Stop,
    ensures
        executed(v, c, CallOutcome::Done { raw_fd, pos, data: read }).1.error is None,
{
}

/// The place of a handle: none after it is opened, further by what was read or written in
/// sequence, where a seek says, and the same after all else. Other handles stay where they are.
pub proof fn law_places_of_handles(
    v: WorkerView,
    c: CommandView,
    raw_fd: Option<i64>,
    pos: u64,
    read: Vec<u8>,
    h: u64,
)
    requires
        place_fits(v, c, CallOutcome::Done { raw_fd, pos, data: read }),
        v.handles.dom().contains((v.id, h)),
        c !is Close,
    ensures
        ({
            let after = executed(v, c, CallOutcome::Done { raw_fd, pos, data: read }).0;
            &&& after.handles.dom().contains((v.id, h))
            &&& after.handles[(v.id, h)].pos == match c {
                CommandView::Open { handle, .. } => if handle == h {
                    0
                } else {
                    v.handles[(v.id, h)].pos as int
                },
                CommandView::Seek { handle, .. } => if handle == h {
                    pos as int
                } else {
                    v.handles[(v.id, h)].pos as int
                },
                CommandView::ReadSeq { handle, .. } => if handle == h {
                    v.handles[(v.id, h)].pos + read@.len()
                } else {
                    v.handles[(v.id, h)].pos as int
                },
                CommandView::WriteSeq { handle, data, .. } => if handle == h {
                    v.handles[(v.id, h)].pos + data.len()
                } else {
                    v.handles[(v.id, h)].pos as int
                },
                _ => v.handles[(v.id, h)].pos as int,
            }
            &&& !(c matches CommandView::Open { handle, .. } && handle == h) ==> after.handles[(
                v.id,
                h,
            )].path == v.handles[(v.id, h)].path
        }),
{
}

/// An opened handle is there afterwards, on its path; a closed one is gone, and only it.
pub proof fn law_handles_come_and_go(
    v: WorkerView,
    step: u64,
    h: u64,
    path: Seq<char>,
    flags: crate::world::OpenFlags,
    raw_fd: Option<i64>,
    pos: u64,
    read: Vec<u8>,
    outcome: CallOutcome,
    other: (usize, u64),
)
    requires
        other != (v.id, h),
    ensures
        ({
            let opened = executed(
                v,
                CommandView::Open { step, handle: h, path, flags },
                CallOutcome::Done { raw_fd, pos, data: read },
            ).0;
            let closed = executed(opened, CommandView::Close { step, handle: h }, outcome);
            &&& opened.handles.dom().contains((v.id, h))
            &&& opened.handles[(v.id, h)].path == path
            &&& opened.handles.dom().contains(other) == v.handles.dom().contains(other)
            &&& opened.handles[other] == v.handles[other]
            &&& !closed.0.handles.dom().contains((v.id, h))
            &&& closed.1.error is None
            &&& closed.0.handles.dom().contains(other) == v.handles.dom().contains(other)
            &&& v.handles.dom().contains(other) ==> closed.0.handles[other] == v.handles[other]
        }),
{
}

/// The log goes where it was switched to last, and nothing else moves it.
pub proof fn law_log_goes_where_it_was_switched(
    v: WorkerView,
    c: CommandView,
    outcome: CallOutcome,
)
    ensures
        executed(v, c, outcome).0.sink == match c {
            CommandView::SwitchLogSink { sink, .. } => sink,
            _ => v.sink,
        },
        executed(v, c, outcome).0.id == v.id,
{
}

} // verus!
