//! The coordinator of a run: it turns moves into commands and follows them in the expected
//! world.

use rand_xorshift::XorShiftRng;
use vstd::prelude::*;
use vstd::string::*;
use vstd::utf8::*;

use crate::expected::{
    changed, held, logged, opened, renamed, unknown_handle, ExpectedWorld, FileBytes, WorldView,
};
use crate::fsx_laws::spliced;
use crate::moves::mark;
use crate::scenario::{
    drawn_kind, kind_drawn, marker_bytes, marker_size, Mark, Move, MoveView, RunConfig, ScenarioKind,
};
use crate::text::{dec, dec_text, push_dec, same_bytes, same_text};
use crate::worker::{
    command_text, step_of_command, CommandView, ReplyView, WorkerCommand, WorkerReply,
};
use crate::world::{
    bytes_verdict, compare_bytes, contents, failed, lookup, put, run_view, without, HandleView,
    RunError, RunErrorView,
};
use crate::xorshift::{draw_range, range_drawn, seed_rng, seeded, words};

verus! {

/// The bytes that are written in a step: its first one is turned around where an error is
/// to be injected.
pub open spec fn injected(inject: Option<u64>, step: u64, data: Seq<u8>) -> Seq<u8> {
    if inject == Some(step) && data.len() > 0 {
        data.update(0, data[0] ^ 0xff)
    } else {
        data
    }
}

/// The commands of the first `n` workers that append at once.
pub open spec fn group_commands(c: RunConfig, steps: u64, n: nat) -> Seq<(usize, CommandView)>
    decreases n,
{
    if n == 0 {
        Seq::empty()
    } else {
        let step = (steps + n) as u64;
        group_commands(c, steps, (n - 1) as nat).push(
            (
                n as usize,
                CommandView::WriteSeq {
                    step,
                    handle: 30,
                    data: marker_bytes(c, step, mark(n as usize, 30, 3, 96)),
                },
            ),
        )
    }
}

/// The commands of a move after `steps` steps.
pub open spec fn commands_of(c: RunConfig, steps: u64, m: MoveView) -> Seq<(usize, CommandView)> {
    let step = (steps + 1) as u64;
    match m {
        MoveView::Open { worker, handle, path, flags } => seq![
            (worker, CommandView::Open { step, handle, path, flags }),
        ],
        MoveView::Close { worker, handle } => seq![(worker, CommandView::Close { step, handle })],
        MoveView::Write { worker, handle, offset, mark } => seq![
            (
                worker,
                CommandView::WriteAt {
                    step,
                    handle,
                    offset,
                    data: injected(c.inject, step, marker_bytes(c, step, mark)),
                },
            ),
        ],
        MoveView::ReadVerify { worker, handle, offset, size } => seq![
            (worker, CommandView::ReadAt { step, handle, offset, size }),
        ],
        MoveView::FreshVerify { worker, path } => seq![
            (worker, CommandView::VerifyPath { step, path }),
        ],
        MoveView::SeekTo { worker, handle, offset } => seq![
            (worker, CommandView::Seek { step, handle, offset }),
        ],
        MoveView::Append { worker, handle, mark } => seq![
            (
                worker,
                CommandView::WriteSeq { step, handle, data: marker_bytes(c, step, mark) },
            ),
        ],
        MoveView::AppendTogether { count } => group_commands(c, steps, count as nat),
        MoveView::Unlink { worker, path } => seq![(worker, CommandView::Unlink { step, path })],
        MoveView::Rename { worker, from, to } => seq![
            (worker, CommandView::Rename { step, from, to }),
        ],
        MoveView::SwitchLog { worker, sink } => seq![
            (worker, CommandView::SwitchLogSink { step, sink }),
        ],
        MoveView::WriteLog { worker, handle, mark } => seq![
            (worker, CommandView::WriteLog { step, data: marker_bytes(c, step, mark) }),
        ],
        MoveView::Stderr { worker } => seq![
            (worker, CommandView::WriteStderr { step, data: encode_utf8("stderr marker\n"@) }),
        ],
        MoveView::VerifyAll => Seq::empty(),
    }
}

/// How many steps a move takes.
pub open spec fn steps_of(m: MoveView) -> nat {
    match m {
        MoveView::AppendTogether { count } => count as nat,
        MoveView::VerifyAll => 0,
        _ => 1,
    }
}

/// The line about a command in the log.
pub open spec fn command_line(worker: usize, c: CommandView) -> Seq<char> {
    dec(step_of_command(c) as nat) + ": worker="@ + dec(worker as nat) + " cmd="@ + command_text(c)
}

/// The log once the first `n` commands were added.
pub open spec fn all_logged(
    log: Seq<Seq<char>>,
    commands: Seq<(usize, CommandView)>,
    n: nat,
) -> Seq<Seq<char>>
    decreases n,
{
    if n == 0 {
        log
    } else {
        let (worker, c) = commands[n - 1];
        logged(all_logged(log, commands, (n - 1) as nat), command_line(worker, c))
    }
}

pub open spec fn command_views(commands: Seq<(usize, WorkerCommand)>) -> Seq<(usize, CommandView)> {
    commands.map_values(|p: (usize, WorkerCommand)| (p.0, p.1@))
}

pub open spec fn reply_views(replies: Seq<WorkerReply>) -> Seq<ReplyView> {
    replies.map_values(|r: WorkerReply| r@)
}

/// The verdict on the replies from `i` on: the first error among them.
pub open spec fn reply_verdict(replies: Seq<ReplyView>, i: nat) -> Result<(), RunErrorView>
    decreases replies.len() - i,
{
    if i >= replies.len() {
        Ok(())
    } else {
        match replies[i as int].error {
            Some(e) => Err(
                failed(
                    "syscall-error"@,
                    "step "@ + dec(replies[i as int].step as nat) + " worker "@ + dec(
                        replies[i as int].worker as nat,
                    ) + ": "@ + e,
                ),
            ),
            None => reply_verdict(replies, i + 1),
        }
    }
}

/// What a read of `size` bytes at `offset` gives of a file.
pub open spec fn part_at(data: Seq<u8>, offset: int, size: int) -> Seq<u8> {
    let end = if offset + size < data.len() {
        offset + size
    } else {
        data.len() as int
    };
    if offset <= end {
        data.subrange(offset, end)
    } else {
        Seq::empty()
    }
}

/// The world after a move whose commands were answered without an error, and the verdict.
pub open spec fn followed(c: RunConfig, step: u64, w: WorldView, m: MoveView, data: Seq<u8>) -> (
    Result<(), RunErrorView>,
    WorldView,
) {
    match m {
        MoveView::Open { worker, handle, path, flags } => (
            Ok(()),
            opened(w, worker, handle, path, flags),
        ),
        MoveView::Close { worker, handle } => (
            Ok(()),
            WorldView { handles: w.handles.remove((worker, handle)), ..w },
        ),
        MoveView::Write { worker, handle, offset, mark } => changed(
            w,
            (worker, handle),
            spliced(held(w, (worker, handle)), offset as int, marker_bytes(c, step, mark)),
        ),
        MoveView::ReadVerify { worker, handle, offset, size } => {
            let key = (worker, handle);
            if !w.handles.dom().contains(key) {
                (Err(unknown_handle(handle)), w)
            } else {
                match bytes_verdict(
                    w.handles[key].path,
                    part_at(held(w, key), offset as int, size as int),
                    data,
                ) {
                    Ok(_) => (Ok(()), WorldView { verified: (w.verified + 1) as usize, ..w }),
                    Err(e) => (Err(e), w),
                }
            }
        },
        MoveView::FreshVerify { path, .. } => (
            match lookup(w.files, path) {
                Some(expected) => bytes_verdict(path, expected, data),
                None => Err(failed("unexpected-file"@, path + " exists but is not modeled"@)),
            },
            WorldView { verified: (w.verified + 1) as usize, ..w },
        ),
        MoveView::SeekTo { worker, handle, offset } => (
            Ok(()),
            if w.handles.dom().contains((worker, handle)) {
                WorldView {
                    handles: w.handles.insert(
                        (worker, handle),
                        HandleView { pos: offset, ..w.handles[(worker, handle)] },
                    ),
                    ..w
                }
            } else {
                w
            },
        ),
        MoveView::Append { worker, handle, mark } => changed(
            w,
            (worker, handle),
            held(w, (worker, handle)) + marker_bytes(c, step, mark),
        ),
        MoveView::WriteLog { worker, handle, mark } => changed(
            w,
            (worker, handle),
            held(w, (worker, handle)) + marker_bytes(c, step, mark),
        ),
        MoveView::Unlink { path, .. } => (
            Ok(()),
            WorldView { files: without(w.files, path), ..w },
        ),
        MoveView::Rename { from, to, .. } => (Ok(()), renamed(w, from, to)),
        MoveView::AppendTogether { .. }
        | MoveView::SwitchLog { .. }
        | MoveView::Stderr { .. }
        | MoveView::VerifyAll => (Ok(()), w),
    }
}

/// The records of the first `n` workers that append at once, one behind the other.
pub open spec fn records(c: RunConfig, steps: u64, n: nat) -> Seq<u8>
    decreases n,
{
    if n == 0 {
        Seq::empty()
    } else {
        records(c, steps, (n - 1) as nat) + marker_bytes(
            c,
            (steps + n) as u64,
            mark(n as usize, 30, 3, 96),
        )
    }
}

/// The same records, the last one first.
pub open spec fn records_back(c: RunConfig, steps: u64, n: nat) -> Seq<u8>
    decreases n,
{
    if n == 0 {
        Seq::empty()
    } else {
        marker_bytes(c, (steps + n) as u64, mark(n as usize, 30, 3, 96)) + records_back(
            c,
            steps,
            (n - 1) as nat,
        )
    }
}

/// The world after `count` workers have appended at once, and the verdict on what the file
/// was found to hold: the records in the order of the workers, or in the opposite one.
pub open spec fn together(
    c: RunConfig,
    steps: u64,
    w: WorldView,
    count: nat,
    read: FileBytes,
) -> (Result<(), RunErrorView>, WorldView) {
    let key = (1usize, 30u64);
    if !w.handles.dom().contains(key) {
        (Err(unknown_handle(30)), w)
    } else {
        let path = w.handles[key].path;
        let before = held(w, key);
        match read {
            Err(e) => (
                Err(failed("missing-file"@, "failed to read append file: "@ + e@)),
                WorldView { files: put(w.files, path, before), ..w },
            ),
            Ok(actual) => if actual@ == before + records(c, steps, count) || actual@ == before
                + records_back(c, steps, count) {
                (
                    Ok(()),
                    WorldView {
                        files: put(put(w.files, path, before), path, actual@),
                        verified: (w.verified + 1) as usize,
                        ..w
                    },
                )
            } else {
                (
                    Err(
                        failed(
                            "wrong-bytes"@,
                            "parallel append records overlapped or were truncated"@,
                        ),
                    ),
                    WorldView { files: put(w.files, path, before), ..w },
                )
            },
        }
    }
}

/// Whether what a move touches lies at places that are numbers.
pub open spec fn move_fits(c: RunConfig, m: MoveView) -> bool {
    match m {
        MoveView::Write { offset, mark, .. } => offset + marker_size(c, mark.min_size)
            <= usize::MAX,
        MoveView::ReadVerify { offset, size, .. } => offset + size <= usize::MAX,
        _ => true,
    }
}

/// Whether all files are to be verified after a move.
pub open spec fn verification_due(c: RunConfig, steps: u64, m: MoveView) -> bool {
    match m {
        MoveView::VerifyAll => true,
        MoveView::Open { .. }
        | MoveView::Close { .. }
        | MoveView::Write { .. }
        | MoveView::ReadVerify { .. } => c.verify_every matches Some(every) && every > 0 && steps
            % every == 0,
        _ => false,
    }
}

pub struct Coordinator {
    pub cfg: RunConfig,
    pub world: ExpectedWorld,
    pub steps: u64,
}

/// The generator of a random run.
pub fn round_rng(seed: u64) -> (rng: XorShiftRng)
    ensures
        words(rng) == seeded(seed),
{
    seed_rng(seed)
}

/// The kind of the next round of a random run: any of six.
pub fn next_kind(rng: &mut XorShiftRng) -> (kind: ScenarioKind)
    ensures
        kind == drawn_kind(range_drawn(words(*old(rng)), 0, 6).0),
        words(*final(rng)) == range_drawn(words(*old(rng)), 0, 6).1,
{
    let n: i32 = draw_range(rng, 0, 6);
    kind_drawn(n)
}

fn push_command(out: &mut Vec<(usize, WorkerCommand)>, worker: usize, cmd: WorkerCommand)
    ensures
        command_views(final(out)@) == command_views(old(out)@).push((worker, cmd@)),
{
    let ghost before = command_views(out@);
    out.push((worker, cmd));
    assert(command_views(out@) =~= before.push((worker, cmd@)));
}

impl Coordinator {
    pub open spec fn wf(&self) -> bool {
        self.world.wf()
    }

    /// A coordinator at the start of a run.
    pub fn new(cfg: RunConfig) -> (r: Self)
        ensures
            r.wf(),
            r.cfg == cfg,
            r.steps == 0,
            r.world@ == (WorldView {
                root: cfg.root@,
                files: Seq::empty(),
                handles: Map::empty(),
                log: Seq::empty(),
                verified: 0,
            }),
    {
        let world = ExpectedWorld::new(cfg.root.clone());
        Coordinator { cfg, world, steps: 0 }
    }

    /// The place of a worker among the running ones.
    pub fn worker_idx(&self, worker: usize) -> (i: usize)
        requires
            self.cfg.workers >= 1,
        ensures
            i == (if worker >= 1 {
                worker - 1
            } else {
                0
            }) % (self.cfg.workers as int),
            i < self.cfg.workers,
    {
        let n: usize = if worker >= 1 {
            worker - 1
        } else {
            0
        };
        n % self.cfg.workers
    }

    /// The step on which an injecting scenario turns a byte around: the one asked for, or
    /// the first write.
    pub fn injection_step(&self) -> (step: Option<u64>)
        requires
            self.steps + self.cfg.workers + 1 <= u64::MAX,
        ensures
            step == match self.cfg.inject {
                Some(step) => Some(step),
                None => Some((self.steps + self.cfg.workers + 1) as u64),
            },
    {
        match self.cfg.inject {
            Some(step) => Some(step),
            None => Some(self.steps + self.cfg.workers as u64 + 1),
        }
    }

    fn log_command(&mut self, worker: usize, cmd: &WorkerCommand)
        requires
            old(self).wf(),
        ensures
            final(self).wf(),
            final(self).cfg == old(self).cfg,
            final(self).steps == old(self).steps,
            final(self).world@ == (WorldView {
                log: logged(old(self).world@.log, command_line(worker, cmd@)),
                ..old(self).world@
            }),
    {
        let mut line = dec_text(cmd.step());
        line.append(": worker=");
        push_dec(&mut line, worker as u64);
        line.append(" cmd=");
        line.append(cmd.debug().as_str());
        self.world.log(line);
    }

    fn marked(&self, step: u64, m: Mark) -> (data: Vec<u8>)
        ensures
            data@ == injected(self.cfg.inject, step, marker_bytes(self.cfg, step, m)),
    {
        let mut data = self.cfg.marker(step, m);
        if let Some(inject) = self.cfg.inject {
            if inject == step && data.len() > 0 {
                let first: u8 = data[0];
                data[0] = first ^ 0xff;
            }
        }
        data
    }

    /// The one command of a move that takes one step.
    fn command(&self, step: u64, m: &Move) -> (r: (usize, WorkerCommand))
        requires
            step == self.steps + 1,
            m@ !is AppendTogether,
            m@ !is VerifyAll,
        ensures
            commands_of(self.cfg, self.steps, m@) == seq![(r.0, r.1@)],
    {
        match m {
            Move::Open { worker, handle, path, flags } => (
                *worker,
                WorkerCommand::Open { step, handle: *handle, path: path.clone(), flags: *flags },
            ),
            Move::Close { worker, handle } => (
                *worker,
                WorkerCommand::Close { step, handle: *handle },
            ),
            Move::Write { worker, handle, offset, mark } => (
                *worker,
                WorkerCommand::WriteAt {
                    step,
                    handle: *handle,
                    offset: *offset,
                    data: self.marked(step, *mark),
                },
            ),
            Move::ReadVerify { worker, handle, offset, size } => (
                *worker,
                WorkerCommand::ReadAt { step, handle: *handle, offset: *offset, size: *size },
            ),
            Move::FreshVerify { worker, path } => (
                *worker,
                WorkerCommand::VerifyPath { step, path: path.clone() },
            ),
            Move::SeekTo { worker, handle, offset } => (
                *worker,
                WorkerCommand::Seek { step, handle: *handle, offset: *offset },
            ),
            Move::Append { worker, handle, mark } => (
                *worker,
                WorkerCommand::WriteSeq {
                    step,
                    handle: *handle,
                    data: self.cfg.marker(step, *mark),
                },
            ),
            Move::Unlink { worker, path } => (
                *worker,
                WorkerCommand::Unlink { step, path: path.clone() },
            ),
            Move::Rename { worker, from, to } => (
                *worker,
                WorkerCommand::Rename { step, from: from.clone(), to: to.clone() },
            ),
            Move::SwitchLog { worker, sink } => (
                *worker,
                WorkerCommand::SwitchLogSink { step, sink: *sink },
            ),
            Move::WriteLog { worker, handle: _, mark } => (
                *worker,
                WorkerCommand::WriteLog { step, data: self.cfg.marker(step, *mark) },
            ),
            Move::Stderr { worker } => {
                let mut data: Vec<u8> = Vec::new();
                data.extend_from_slice("stderr marker\n".as_bytes());
                assert(data@ =~= encode_utf8("stderr marker\n"@));
                (*worker, WorkerCommand::WriteStderr { step, data })
            },
            Move::AppendTogether { .. } | Move::VerifyAll => (0, WorkerCommand::Stop { step }),
        }
    }

    /// Starts a move: counts its steps, and gives the commands to send, each to its worker.
    pub fn begin(&mut self, m: &Move) -> (r: Result<Vec<(usize, WorkerCommand)>, RunError>)
        requires
            old(self).wf(),
            old(self).steps + steps_of(m@) <= u64::MAX,
        ensures
            final(self).wf(),
            final(self).cfg == old(self).cfg,
            match r {
                Ok(commands) => {
                    let sent = commands_of(old(self).cfg, old(self).steps, m@);
                    &&& command_views(commands@) == sent
                    &&& final(self).steps == old(self).steps + steps_of(m@)
                    &&& final(self).world@ == (WorldView {
                        log: all_logged(old(self).world@.log, sent, sent.len()),
                        ..old(self).world@
                    })
                },
                Err(e) => {
                    &&& final(self).steps == old(self).steps
                    &&& final(self).world@ == old(self).world@
                    &&& m@ matches MoveView::ReadVerify { worker, handle, .. } && e@
                        == unknown_handle(handle)
                },
            },
            r is Err <==> (m@ matches MoveView::ReadVerify { worker, handle, .. } && !old(self).world@.handles.dom().contains((worker, handle))),
    {
        if let Move::ReadVerify { worker, handle, .. } = m {
            if let Err(e) = self.world.handle_path(*worker, *handle) {
                return Err(e);
            }
        }
        let mut out: Vec<(usize, WorkerCommand)> = Vec::new();
        assert(command_views(out@) =~= Seq::empty());
        let ghost sent = commands_of(self.cfg, self.steps, m@);
        match m {
            Move::VerifyAll => {},
            Move::AppendTogether { count: wanted } => {
                let count: usize = *wanted;
                let start: u64 = self.steps;
                let mut w: usize = 0;
                while w < count
                    invariant
                        self.wf(),
                        w <= count,
                        start == old(self).steps,
                        start + count <= u64::MAX,
                        self.cfg == old(self).cfg,
                        self.steps == start + w,
                        command_views(out@) == group_commands(self.cfg, start, w as nat),
                        sent == group_commands(self.cfg, start, count as nat),
                        self.world@ == (WorldView {
                            log: all_logged(old(self).world@.log, sent, w as nat),
                            ..old(self).world@
                        }),
                    decreases count - w,
                {
                    w = w + 1;
                    self.steps = self.steps + 1;
                    let step: u64 = self.steps;
                    let label = Mark { worker: w, handle: 30, path_id: 3, min_size: 96 };
                    let data = self.cfg.marker(step, label);
                    let cmd = WorkerCommand::WriteSeq { step, handle: 30, data };
                    proof {
                        lemma_group_prefix(self.cfg, start, w as nat, count as nat);
                    }
                    self.log_command(w, &cmd);
                    push_command(&mut out, w, cmd);
                }
                proof {
                    lemma_group_len(self.cfg, start, count as nat);
                }
            },
            _ => {
                let step: u64 = self.steps + 1;
                let (worker, cmd) = self.command(step, m);
                self.steps = step;
                self.log_command(worker, &cmd);
                let ghost log0 = old(self).world@.log;
                assert(all_logged(log0, sent, 1) == logged(
                    log0,
                    command_line(worker, cmd@),
                )) by {
                    assert(all_logged(log0, sent, 0) == log0);
                }
                push_command(&mut out, worker, cmd);
                assert(command_views(out@) =~= sent);
            },
        }
        Ok(out)
    }

    /// Judges replies: the first error among them.
    pub fn check_replies(&self, replies: &Vec<WorkerReply>) -> (r: Result<(), RunError>)
        ensures
            run_view(r) == reply_verdict(reply_views(replies@), 0),
    {
        let total: usize = replies.len();
        let ghost views = reply_views(replies@);
        let mut i: usize = 0;
        while i < total
            invariant
                total == replies@.len(),
                views == reply_views(replies@),
                i <= total,
                reply_verdict(views, 0) == reply_verdict(views, i as nat),
            decreases total - i,
        {
            let reply = &replies[i];
            assert(views[i as int] == reply@);
            if let Some(e) = &reply.error {
                let mut s = "step ".to_string();
                push_dec(&mut s, reply.step);
                s.append(" worker ");
                push_dec(&mut s, reply.worker as u64);
                s.append(": ");
                s.append(e.as_str());
                return Err(RunError::new("syscall-error", s));
            }
            i = i + 1;
        }
        Ok(())
    }

    fn expected_part(&self, path: &str, offset: u64, size: usize) -> (out: Vec<u8>)
        requires
            offset + size <= usize::MAX,
        ensures
            out@ == part_at(contents(self.world@.files, path@), offset as int, size as int),
    {
        let data = self.world.bytes_of(path);
        let total: usize = data.len();
        let start: usize = offset as usize;
        let end: usize = if start + size < total {
            start + size
        } else {
            total
        };
        let mut out: Vec<u8> = Vec::new();
        if start <= end {
            let mut i: usize = start;
            assert(out@ =~= data@.subrange(start as int, start as int));
            while i < end
                invariant
                    start <= i <= end <= data@.len(),
                    out@ == data@.subrange(start as int, i as int),
                decreases end - i,
            {
                out.push(data[i]);
                i = i + 1;
                assert(out@ =~= data@.subrange(start as int, i as int));
            }
        } else {
            assert(out@ =~= Seq::empty());
        }
        out
    }

    /// Ends a move of one step whose command was answered: follows it in the world and
    /// judges what was read.
    pub fn finish(&mut self, m: &Move, reply: &WorkerReply) -> (r: Result<(), RunError>)
        requires
            old(self).wf(),
            m@ !is AppendTogether,
            move_fits(old(self).cfg, m@),
            old(self).world.verified_files < usize::MAX,
        ensures
            final(self).wf(),
            final(self).cfg == old(self).cfg,
            final(self).steps == old(self).steps,
            (run_view(r), final(self).world@) == match reply_verdict(seq![reply@], 0) {
                Err(e) => (Err::<(), RunErrorView>(e), old(self).world@),
                Ok(_) => followed(
                    old(self).cfg,
                    old(self).steps,
                    old(self).world@,
                    m@,
                    reply.data@,
                ),
            },
    {
        proof {
            assert(reply_verdict(seq![reply@], 1) == Ok::<(), RunErrorView>(()));
        }
        if let Some(e) = &reply.error {
            let mut s = "step ".to_string();
            push_dec(&mut s, reply.step);
            s.append(" worker ");
            push_dec(&mut s, reply.worker as u64);
            s.append(": ");
            s.append(e.as_str());
            return Err(RunError::new("syscall-error", s));
        }
        match m {
            Move::Open { worker, handle, path, flags } => {
                self.world.open(*worker, *handle, path.clone(), *flags);
                Ok(())
            },
            Move::Close { worker, handle } => {
                self.world.close(*worker, *handle);
                Ok(())
            },
            Move::Write { worker, handle, offset, mark } => {
                let data = self.cfg.marker(self.steps, *mark);
                self.world.write_at(*worker, *handle, *offset, data.as_slice())
            },
            Move::ReadVerify { worker, handle, offset, size } => {
                let path = match self.world.handle_path(*worker, *handle) {
                    Ok(path) => path,
                    Err(e) => {
                        return Err(e);
                    },
                };
                let expected = self.expected_part(path.as_str(), *offset, *size);
                if let Err(e) = compare_bytes(
                    path.as_str(),
                    expected.as_slice(),
                    reply.data.as_slice(),
                ) {
                    return Err(e);
                }
                self.world.verified_files = self.world.verified_files + 1;
                Ok(())
            },
            Move::FreshVerify { worker: _, path } => self.world.verify_path(
                path.as_str(),
                reply.data.as_slice(),
            ),
            Move::SeekTo { worker, handle, offset } => {
                self.world.set_pos(*worker, *handle, *offset);
                Ok(())
            },
            Move::Append { worker, handle, mark } => {
                let data = self.cfg.marker(self.steps, *mark);
                self.world.append(*worker, *handle, data.as_slice())
            },
            Move::WriteLog { worker, handle, mark } => {
                let data = self.cfg.marker(self.steps, *mark);
                self.world.append(*worker, *handle, data.as_slice())
            },
            Move::Unlink { worker: _, path } => {
                self.world.unlink(path.as_str());
                Ok(())
            },
            Move::Rename { worker: _, from, to } => {
                self.world.rename(from.as_str(), to.as_str());
                Ok(())
            },
            Move::AppendTogether { .. }
            | Move::SwitchLog { .. }
            | Move::Stderr { .. }
            | Move::VerifyAll => Ok(()),
        }
    }

    fn group_records(&self, start: u64, count: usize) -> (r: (Vec<u8>, Vec<u8>))
        requires
            start + count <= u64::MAX,
        ensures
            r.0@ == records(self.cfg, start, count as nat),
            r.1@ == records_back(self.cfg, start, count as nat),
    {
        let mut forth: Vec<u8> = Vec::new();
        let mut back: Vec<u8> = Vec::new();
        let mut w: usize = 0;
        assert(forth@ =~= Seq::empty());
        assert(back@ =~= Seq::empty());
        while w < count
            invariant
                w <= count,
                start + count <= u64::MAX,
                forth@ == records(self.cfg, start, w as nat),
                back@ == records_back(self.cfg, start, w as nat),
            decreases count - w,
        {
            w = w + 1;
            let label = Mark { worker: w, handle: 30, path_id: 3, min_size: 96 };
            let data = self.cfg.marker(start + w as u64, label);
            let ghost before = forth@;
            let ghost behind = back@;
            forth.extend_from_slice(data.as_slice());
            assert(forth@ =~= before + data@);
            let mut next: Vec<u8> = Vec::new();
            next.extend_from_slice(data.as_slice());
            next.extend_from_slice(back.as_slice());
            assert(next@ =~= data@ + behind);
            back = next;
        }
        (forth, back)
    }

    /// The file that workers append to at once.
    pub fn append_path(&self) -> (r: Result<String, RunError>)
        ensures
            match r {
                Ok(path) => self.world@.handles.dom().contains((1usize, 30u64)) && path@
                    == self.world@.handles[(1usize, 30u64)].path,
                Err(e) => !self.world@.handles.dom().contains((1usize, 30u64)) && e@
                    == unknown_handle(30),
            },
    {
        self.world.handle_path(1, 30)
    }

    /// Ends the move in which `count` workers appended at once, given what the file was
    /// found to hold.
    pub fn finish_together(
        &mut self,
        count: usize,
        replies: &Vec<WorkerReply>,
        read: FileBytes,
    ) -> (r: Result<(), RunError>)
        requires
            old(self).wf(),
            count <= old(self).steps,
            old(self).world.verified_files < usize::MAX,
        ensures
            final(self).wf(),
            final(self).cfg == old(self).cfg,
            final(self).steps == old(self).steps,
            (run_view(r), final(self).world@) == match reply_verdict(reply_views(replies@), 0) {
                Err(e) => (Err::<(), RunErrorView>(e), old(self).world@),
                Ok(_) => together(
                    old(self).cfg,
                    (old(self).steps - count) as u64,
                    old(self).world@,
                    count as nat,
                    read,
                ),
            },
    {
        if let Err(e) = self.check_replies(replies) {
            return Err(e);
        }
        let path = match self.append_path() {
            Ok(path) => path,
            Err(e) => {
                return Err(e);
            },
        };
        let before = self.world.bytes_of(path.as_str());
        let start: u64 = self.steps - count as u64;
        let (forth, back) = self.group_records(start, count);
        let mut one: Vec<u8> = Vec::new();
        one.extend_from_slice(before.as_slice());
        one.extend_from_slice(forth.as_slice());
        assert(one@ =~= before@ + forth@);
        let mut other: Vec<u8> = Vec::new();
        other.extend_from_slice(before.as_slice());
        other.extend_from_slice(back.as_slice());
        assert(other@ =~= before@ + back@);
        self.world.put_file(path.as_str(), before);
        let actual = match read {
            Ok(actual) => actual,
            Err(e) => {
                return Err(
                    RunError::new(
                        "missing-file",
                        "failed to read append file: ".to_string().concat(e.as_str()),
                    ),
                );
            },
        };
        if !same_bytes(actual.as_slice(), one.as_slice()) && !same_bytes(
            actual.as_slice(),
            other.as_slice(),
        ) {
            return Err(
                RunError::new(
                    "wrong-bytes",
                    "parallel append records overlapped or were truncated".to_string(),
                ),
            );
        }
        self.world.put_file(path.as_str(), actual);
        self.world.verified_files = self.world.verified_files + 1;
        Ok(())
    }

    /// Whether all files are to be verified after a move.
    pub fn verify_due(&self, m: &Move) -> (r: bool)
        ensures
            r == verification_due(self.cfg, self.steps, m@),
    {
        match m {
            Move::VerifyAll => true,
            Move::Open { .. }
            | Move::Close { .. }
            | Move::Write { .. }
            | Move::ReadVerify { .. } => match self.cfg.verify_every {
                Some(every) => every > 0 && self.steps % every == 0,
                None => false,
            },
            _ => false,
        }
    }

    /// Whether a move can be ended: its places and the count of verified files are numbers.
    pub fn can_finish(&self, m: &Move) -> (r: bool)
        ensures
            r == (move_fits(self.cfg, m@) && self.world.verified_files < usize::MAX),
    {
        let fits = match m {
            Move::Write { offset, mark, .. } => {
                let size: usize = self.cfg.size_of_marker(mark.min_size);
                *offset as u128 + size as u128 <= usize::MAX as u128
            },
            Move::ReadVerify { offset, size, .. } => *offset as u128 + *size as u128
                <= usize::MAX as u128,
            _ => true,
        };
        fits && self.world.verified_files < usize::MAX
    }
}

proof fn lemma_group_len(c: RunConfig, steps: u64, n: nat)
    ensures
        group_commands(c, steps, n).len() == n,
    decreases n,
{
    if n > 0 {
        lemma_group_len(c, steps, (n - 1) as nat);
    }
}

proof fn lemma_group_prefix(c: RunConfig, steps: u64, n: nat, total: nat)
    requires
        1 <= n <= total,
    ensures
        group_commands(c, steps, total)[n - 1] == group_commands(c, steps, n).last(),
        group_commands(c, steps, total).len() == total,
    decreases total,
{
    lemma_group_len(c, steps, total);
    lemma_group_len(c, steps, (total - 1) as nat);
    lemma_group_len(c, steps, n);
    if n < total {
        lemma_group_prefix(c, steps, n, (total - 1) as nat);
    }
}

/// Steps are counted once: the commands of a move have the numbers that follow the steps
/// before it, one each.
pub proof fn law_steps_are_counted(c: RunConfig, steps: u64, m: MoveView, i: int)
    requires
        steps + steps_of(m) <= u64::MAX,
        0 <= i < commands_of(c, steps, m).len(),
    ensures
        commands_of(c, steps, m).len() == steps_of(m),
        step_of_command(commands_of(c, steps, m)[i].1) == steps + 1 + i,
{
    if let MoveView::AppendTogether { count } = m {
        lemma_group_len(c, steps, count as nat);
        lemma_group_prefix(c, steps, (i + 1) as nat, count as nat);
    }
}

/// What the bytes that a move reads ought to be, where it reads any of a file that the world
/// knows.
pub open spec fn right_bytes(w: WorldView, m: MoveView) -> Option<Seq<u8>> {
    match m {
        MoveView::ReadVerify { worker, handle, offset, size } => if w.handles.dom().contains(
            (worker, handle),
        ) {
            Some(part_at(held(w, (worker, handle)), offset as int, size as int))
        } else {
            None
        },
        MoveView::FreshVerify { path, .. } => lookup(w.files, path),
        _ => None,
    }
}

/// A read passes if and only if it gave what the world holds there.
pub proof fn law_right_reads_pass(
    c: RunConfig,
    step: u64,
    w: WorldView,
    m: MoveView,
    data: Seq<u8>,
)
    requires
        right_bytes(w, m) is Some,
    ensures
        followed(c, step, w, m, data).0 is Ok <==> right_bytes(w, m) == Some(data),
{
}

/// An injected error is found: bytes with it are not the expected ones.
pub proof fn law_injection_is_found(path: Seq<char>, step: u64, data: Seq<u8>)
    requires
        data.len() > 0,
    ensures
        bytes_verdict(path, data, injected(Some(step), step, data)) is Err,
{
    let first = data[0];
    assert(first ^ 0xff != first) by (bit_vector);
    assert(injected(Some(step), step, data)[0] != data[0]);
}

/// Whether a root is one that a run must not clean.
pub open spec fn broad_root(root: Seq<char>) -> bool {
    root == "/"@ || root == "/tmp"@ || root == "/data"@ || root == "/work"@
}

/// Refuses to clean a directory that others use.
pub fn prepare_run_root(root: &str) -> (r: Result<(), RunError>)
    ensures
        run_view(r) == if broad_root(root@) {
            Err(
                failed(
                    "syscall-error"@,
                    "refusing to clean broad run root "@ + root@
                        + "; pass a child directory instead"@,
                ),
            )
        } else {
            Ok(())
        },
{
    if same_text(root, "/") || same_text(root, "/tmp") || same_text(root, "/data") || same_text(
        root,
        "/work",
    ) {
        let s = "refusing to clean broad run root ".to_string().concat(root).concat(
            "; pass a child directory instead",
        );
        return Err(RunError::new("syscall-error", s));
    }
    Ok(())
}

} // verus!
