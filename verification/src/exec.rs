//! Running the operations of a case: what a worker asks of the host, and what it makes of
//! the host's answer.

use vstd::prelude::*;
use vstd::string::*;
use vstd::utf8::*;

use crate::errors::{errcode, error_kind, IoFailure};
use crate::hash::{fnv, stable_hash};
use crate::listing::{listing_bytes, read_dir_listing, DirName};
use crate::ops::{FileId, Op, OpenMode, SeekTarget, FD_SLOTS, SNAPSHOT_FILES, STDERR_MARKER_LEN};
use crate::report::{Entry, FileSnapshot, ReportSink, SnapshotView};
use crate::result::{OpResult, OpResultView, OracleErr};
use crate::schedule::{write_payload, ScheduledStep};

verus! {

/// The bytes that a stderr write emits.
pub open spec fn stderr_marker_bytes() -> Seq<u8> {
    encode_utf8(
        "FSX_ORACLE_STDERR_MARKER_77_BYTES_DO_NOT_BELONG_IN_DATA_FILES_1234567890!!!!!"@,
    )
}

pub fn stderr_marker() -> (bytes: Vec<u8>)
    ensures
        bytes@ == stderr_marker_bytes(),
        bytes@.len() == STDERR_MARKER_LEN,
{
    let mut bytes: Vec<u8> = Vec::new();
    bytes.extend_from_slice(
        "FSX_ORACLE_STDERR_MARKER_77_BYTES_DO_NOT_BELONG_IN_DATA_FILES_1234567890!!!!!".as_bytes(),
    );
    proof {
        reveal_strlit(
            "FSX_ORACLE_STDERR_MARKER_77_BYTES_DO_NOT_BELONG_IN_DATA_FILES_1234567890!!!!!",
        );
        is_ascii_chars_encode_utf8(
            "FSX_ORACLE_STDERR_MARKER_77_BYTES_DO_NOT_BELONG_IN_DATA_FILES_1234567890!!!!!"@,
        );
        assert(bytes@ =~= stderr_marker_bytes());
    }
    bytes
}

/// A descriptor slot of a worker. A file that is open goes by the number under which the
/// host keeps it, a closed one by the descriptor that it had.
#[derive(Clone, Copy, Debug, PartialEq, Eq, Structural)]
pub enum FdSlot {
    NeverOpened,
    Open(u64),
    Closed(i32),
}

/// The slots of a worker, and the open files that no slot holds any more.
pub struct WorkerState {
    pub slots: Vec<FdSlot>,
    pub leaked: Vec<u64>,
}

pub struct State {
    pub workers: Vec<WorkerState>,
}

#[verifier::ext_equal]
pub struct WorkerView {
    pub slots: Seq<FdSlot>,
    pub leaked: Seq<u64>,
}

impl View for WorkerState {
    type V = WorkerView;

    open spec fn view(&self) -> WorkerView {
        WorkerView { slots: self.slots@, leaked: self.leaked@ }
    }
}

impl View for State {
    type V = Seq<WorkerView>;

    open spec fn view(&self) -> Seq<WorkerView> {
        self.workers@.map_values(|w: WorkerState| w@)
    }
}

/// A worker that has opened nothing.
pub open spec fn idle_worker() -> WorkerView {
    WorkerView {
        slots: Seq::new(FD_SLOTS as nat, |i: int| FdSlot::NeverOpened),
        leaked: Seq::empty(),
    }
}

pub fn empty_slots() -> (slots: Vec<FdSlot>)
    ensures
        slots@ == idle_worker().slots,
{
    let mut slots: Vec<FdSlot> = Vec::new();
    while slots.len() < FD_SLOTS
        invariant
            slots@.len() <= FD_SLOTS,
            forall|i: int| 0 <= i < slots@.len() ==> slots@[i] == FdSlot::NeverOpened,
        decreases FD_SLOTS - slots@.len(),
    {
        slots.push(FdSlot::NeverOpened);
    }
    assert(slots@ =~= idle_worker().slots);
    slots
}

pub fn empty_workers(worker_count: usize) -> (workers: Vec<WorkerState>)
    ensures
        (State { workers })@ == Seq::new(worker_count as nat, |i: int| idle_worker()),
{
    let mut workers: Vec<WorkerState> = Vec::new();
    while workers.len() < worker_count
        invariant
            workers@.len() <= worker_count,
            forall|i: int| 0 <= i < workers@.len() ==> (#[trigger] workers@[i])@ == idle_worker(),
        decreases worker_count - workers@.len(),
    {
        let worker = WorkerState { slots: empty_slots(), leaked: Vec::new() };
        assert(worker@ =~= idle_worker());
        workers.push(worker);
    }
    assert((State { workers })@ =~= Seq::new(worker_count as nat, |i: int| idle_worker()));
    workers
}

/// One operation, and where its files stand.
pub struct Job {
    pub op: Op,
    pub case_root: String,
    pub fixture_id: usize,
    pub fixture_root: String,
}

/// The file on which a host is to work: one that it keeps open, or whatever a descriptor
/// names.
#[derive(Clone, Copy, Debug, PartialEq, Eq, Structural)]
pub enum FdTarget {
    Kept(u64),
    Raw(i32),
}

/// What a host is asked to do. Where nothing is left to do, the result is there.
pub enum Request {
    Open { path: String, mode: OpenMode },
    Close { file: u64 },
    Write { target: FdTarget, bytes: Vec<u8> },
    Read { target: FdTarget, len: usize },
    WriteStderr { bytes: Vec<u8> },
    Dup { target: FdTarget },
    Delete { path: String },
    Seek { target: FdTarget, to: SeekTarget },
    Fstat { target: FdTarget },
    Stat { path: String },
    ReadDir { path: String },
    Done { result: OpResult },
}

pub enum RequestView {
    Open { path: Seq<char>, mode: OpenMode },
    Close { file: u64 },
    Write { target: FdTarget, bytes: Seq<u8> },
    Read { target: FdTarget, len: nat },
    WriteStderr { bytes: Seq<u8> },
    Dup { target: FdTarget },
    Delete { path: Seq<char> },
    Seek { target: FdTarget, to: SeekTarget },
    Fstat { target: FdTarget },
    Stat { path: Seq<char> },
    ReadDir { path: Seq<char> },
    Done { result: OpResultView },
}

impl View for Request {
    type V = RequestView;

    open spec fn view(&self) -> RequestView {
        match *self {
            Request::Open { path, mode } => RequestView::Open { path: path@, mode },
            Request::Close { file } => RequestView::Close { file },
            Request::Write { target, bytes } => RequestView::Write { target, bytes: bytes@ },
            Request::Read { target, len } => RequestView::Read { target, len: len as nat },
            Request::WriteStderr { bytes } => RequestView::WriteStderr { bytes: bytes@ },
            Request::Dup { target } => RequestView::Dup { target },
            Request::Delete { path } => RequestView::Delete { path: path@ },
            Request::Seek { target, to } => RequestView::Seek { target, to },
            Request::Fstat { target } => RequestView::Fstat { target },
            Request::Stat { path } => RequestView::Stat { path: path@ },
            Request::ReadDir { path } => RequestView::ReadDir { path: path@ },
            Request::Done { result } => RequestView::Done { result: result@ },
        }
    }
}

/// A host's answer.
pub enum Outcome {
    /// The request failed.
    Failed(IoFailure),
    /// A file was opened or a descriptor duplicated, and is kept under this number.
    Kept(u64),
    /// The file was closed; this was its descriptor.
    ClosedRaw(i32),
    /// So many bytes were written, or such is the position or the length.
    Count(u64),
    /// These bytes were read.
    Data(Vec<u8>),
    /// These names are in the directory.
    Names(Vec<DirName>),
    /// It was done.
    Finished,
}

/// The file behind a slot, if there ever was one.
pub open spec fn slot_target(slot: FdSlot) -> Option<FdTarget> {
    match slot {
        FdSlot::NeverOpened => None,
        FdSlot::Open(file) => Some(FdTarget::Kept(file)),
        FdSlot::Closed(raw) => Some(FdTarget::Raw(raw)),
    }
}

/// What running `op` asks of the host, on the slots of its worker.
pub open spec fn request_of(
    slots: Seq<FdSlot>,
    op: Op,
    case_root: Seq<char>,
    fixture_root: Seq<char>,
    fixture_id: usize,
) -> RequestView {
    let bad_fd = RequestView::Done { result: OpResultView::of_err(OracleErr::BadFd) };
    match op {
        Op::Open { file, mode, .. } => RequestView::Open {
            path: file.resolved_place(case_root, fixture_root, fixture_id),
            mode,
        },
        Op::Close { slot } => match slots[slot as int] {
            FdSlot::Open(file) => RequestView::Close { file },
            _ => bad_fd,
        },
        Op::Write { slot, payload } => match slot_target(slots[slot as int]) {
            Some(target) => RequestView::Write {
                target,
                bytes: Seq::new(
                    payload.size(),
                    |i: int|
                        if slot == 0 {
                            65u8
                        } else {
                            66u8
                        },
                ),
            },
            None => bad_fd,
        },
        Op::Read { slot, size } => match slot_target(slots[slot as int]) {
            Some(target) => RequestView::Read { target, len: size.size() },
            None => bad_fd,
        },
        Op::WriteStderr => RequestView::WriteStderr { bytes: stderr_marker_bytes() },
        Op::Dup { src_slot, .. } => match slot_target(slots[src_slot as int]) {
            Some(target) => RequestView::Dup { target },
            None => bad_fd,
        },
        Op::Delete { file } => RequestView::Delete {
            path: file.resolved_place(case_root, fixture_root, fixture_id),
        },
        Op::Seek { slot, target: to } => match slot_target(slots[slot as int]) {
            Some(target) => RequestView::Seek { target, to },
            None => bad_fd,
        },
        Op::Fstat { slot } => match slot_target(slots[slot as int]) {
            Some(target) => RequestView::Fstat { target },
            None => bad_fd,
        },
        Op::Stat { file } => RequestView::Stat {
            path: file.resolved_place(case_root, fixture_root, fixture_id),
        },
        Op::ReadDir => RequestView::ReadDir { path: case_root },
    }
}

/// Whether the worker and the slots of an operation exist.
pub open spec fn job_exists(state: Seq<WorkerView>, worker: usize, op: Op) -> bool {
    &&& worker < state.len()
    &&& op.slot_of() matches Some(slot) ==> slot < state[worker as int].slots.len()
    &&& op matches Op::Dup { dst_slot, .. } ==> dst_slot < state[worker as int].slots.len()
}

fn target_of(slot: FdSlot) -> (t: Option<FdTarget>)
    ensures
        t == slot_target(slot),
{
    match slot {
        FdSlot::NeverOpened => None,
        FdSlot::Open(file) => Some(FdTarget::Kept(file)),
        FdSlot::Closed(raw) => Some(FdTarget::Raw(raw)),
    }
}

fn bad_fd() -> (r: Request)
    ensures
        r@ == (RequestView::Done { result: OpResultView::of_err(OracleErr::BadFd) }),
{
    Request::Done { result: OpResult::err(OracleErr::BadFd) }
}

/// What the host is to do for a job of `worker`.
pub fn plan_job(worker: usize, state: &State, job: &Job) -> (r: Request)
    requires
        job_exists(state@, worker, job.op),
    ensures
        r@ == request_of(
            state@[worker as int].slots,
            job.op,
            job.case_root@,
            job.fixture_root@,
            job.fixture_id,
        ),
{
    let slots = &state.workers[worker].slots;
    assert(state@[worker as int].slots == slots@);
    match job.op {
        Op::Open { file, mode, .. } => Request::Open {
            path: file.resolved_path(
                job.case_root.as_str(),
                job.fixture_root.as_str(),
                job.fixture_id,
            ),
            mode,
        },
        Op::Close { slot } => match slots[slot] {
            FdSlot::Open(file) => Request::Close { file },
            _ => bad_fd(),
        },
        Op::Write { slot, payload } => match target_of(slots[slot]) {
            Some(target) => Request::Write { target, bytes: write_payload(slot, payload) },
            None => bad_fd(),
        },
        Op::Read { slot, size } => match target_of(slots[slot]) {
            Some(target) => Request::Read { target, len: size.len() },
            None => bad_fd(),
        },
        Op::WriteStderr => Request::WriteStderr { bytes: stderr_marker() },
        Op::Dup { src_slot, .. } => match target_of(slots[src_slot]) {
            Some(target) => Request::Dup { target },
            None => bad_fd(),
        },
        Op::Delete { file } => Request::Delete {
            path: file.resolved_path(
                job.case_root.as_str(),
                job.fixture_root.as_str(),
                job.fixture_id,
            ),
        },
        Op::Seek { slot, target: to } => match target_of(slots[slot]) {
            Some(target) => Request::Seek { target, to },
            None => bad_fd(),
        },
        Op::Fstat { slot } => match target_of(slots[slot]) {
            Some(target) => Request::Fstat { target },
            None => bad_fd(),
        },
        Op::Stat { file } => Request::Stat {
            path: file.resolved_path(
                job.case_root.as_str(),
                job.fixture_root.as_str(),
                job.fixture_id,
            ),
        },
        Op::ReadDir => Request::ReadDir { path: job.case_root.clone() },
    }
}

/// Whether the answer is one to the request that `op` makes.
pub open spec fn answers(op: Op, outcome: Outcome) -> bool {
    outcome is Failed || match op {
        Op::Open { .. } => outcome is Kept,
        Op::Close { .. } => outcome is ClosedRaw,
        Op::Write { .. } => outcome is Count,
        Op::Read { .. } => outcome is Data,
        Op::WriteStderr => outcome is Finished,
        Op::Dup { .. } => outcome is Kept,
        Op::Delete { .. } => outcome is Finished,
        Op::Seek { .. } => outcome is Count,
        Op::Fstat { .. } => outcome is Count,
        Op::Stat { .. } => outcome is Count,
        Op::ReadDir => outcome is Names,
    }
}

/// The slots of a worker once `file` is in `slot`. A file that was open there leaks.
pub open spec fn slot_filled(w: WorkerView, slot: usize, file: u64) -> WorkerView {
    WorkerView {
        slots: w.slots.update(slot as int, FdSlot::Open(file)),
        leaked: match w.slots[slot as int] {
            FdSlot::Open(old) => w.leaked.push(old),
            _ => w.leaked,
        },
    }
}

/// A worker once the host has answered.
pub open spec fn worker_after(w: WorkerView, op: Op, outcome: Outcome) -> WorkerView {
    match (op, outcome) {
        (Op::Open { slot, .. }, Outcome::Kept(file)) => slot_filled(w, slot, file),
        (Op::Dup { dst_slot, .. }, Outcome::Kept(file)) => slot_filled(w, dst_slot, file),
        (Op::Close { slot }, Outcome::ClosedRaw(raw)) => WorkerView {
            slots: w.slots.update(slot as int, FdSlot::Closed(raw)),
            leaked: w.leaked,
        },
        _ => w,
    }
}

/// What an operation returns once the host has answered.
pub open spec fn result_of(op: Op, outcome: Outcome, wasm: bool) -> OpResultView {
    match outcome {
        Outcome::Failed(e) => OpResultView::of_err(error_kind(e, wasm)),
        Outcome::Kept(_) => OpResultView::of_ok(
            if op is Dup {
                0
            } else {
                (-1) as i64
            },
        ),
        Outcome::ClosedRaw(_) => OpResultView::of_ok((-1) as i64),
        Outcome::Count(n) => OpResultView::of_ok(n as i64),
        Outcome::Data(bytes) => OpResultView {
            rc: bytes@.len() as i64,
            err: OracleErr::NoErr,
            data: bytes@,
        },
        Outcome::Names(names) => OpResultView {
            rc: listing_bytes(names@).len() as i64,
            err: OracleErr::NoErr,
            data: listing_bytes(names@),
        },
        Outcome::Finished => OpResultView::of_ok(
            if op is WriteStderr {
                STDERR_MARKER_LEN as i64
            } else {
                (-1) as i64
            },
        ),
    }
}

fn fill_slot(w: &mut WorkerState, slot: usize, file: u64)
    requires
        slot < old(w)@.slots.len(),
    ensures
        final(w)@ == slot_filled(old(w)@, slot, file),
{
    if let FdSlot::Open(left) = w.slots[slot] {
        w.leaked.push(left);
    }
    w.slots[slot] = FdSlot::Open(file);
    assert(w@ =~= slot_filled(old(w)@, slot, file));
}

fn settle(w: &mut WorkerState, op: Op, outcome: &Outcome)
    requires
        op.slot_of() matches Some(slot) ==> slot < old(w)@.slots.len(),
        op matches Op::Dup { dst_slot, .. } ==> dst_slot < old(w)@.slots.len(),
    ensures
        final(w)@ == worker_after(old(w)@, op, *outcome),
{
    match (op, outcome) {
        (Op::Open { slot, .. }, Outcome::Kept(file)) => {
            fill_slot(w, slot, *file);
        },
        (Op::Dup { dst_slot, .. }, Outcome::Kept(file)) => {
            fill_slot(w, dst_slot, *file);
        },
        (Op::Close { slot }, Outcome::ClosedRaw(raw)) => {
            w.slots[slot] = FdSlot::Closed(*raw);
        },
        _ => {},
    }
    assert(w@ =~= worker_after(old(w)@, op, *outcome));
}

/// Takes in the host's answer to a job of `worker` and gives what the operation returns.
pub fn complete_job(worker: usize, state: &mut State, op: Op, outcome: Outcome, wasm: bool) -> (r:
    OpResult)
    requires
        job_exists(old(state)@, worker, op),
        answers(op, outcome),
    ensures
        r@ == result_of(op, outcome, wasm),
        final(state)@ == old(state)@.update(
            worker as int,
            worker_after(old(state)@[worker as int], op, outcome),
        ),
{
    assert(state@[worker as int] == state.workers@[worker as int]@);
    settle(&mut state.workers[worker], op, &outcome);
    assert(state@ =~= old(state)@.update(
        worker as int,
        worker_after(old(state)@[worker as int], op, outcome),
    ));
    match outcome {
        Outcome::Failed(e) => OpResult::err(errcode(&e, wasm)),
        Outcome::Kept(_) => match op {
            Op::Dup { .. } => OpResult::ok(0),
            _ => OpResult::ok(-1),
        },
        Outcome::ClosedRaw(_) => OpResult::ok(-1),
        Outcome::Count(n) => OpResult::ok(n as i64),
        Outcome::Data(bytes) => OpResult::ok_data(bytes.len() as i64, bytes),
        Outcome::Names(names) => {
            let listing = read_dir_listing(&names);
            OpResult::ok_data(listing.len() as i64, listing)
        },
        Outcome::Finished => match op {
            Op::WriteStderr => OpResult::ok(STDERR_MARKER_LEN as i64),
            _ => OpResult::ok(-1),
        },
    }
}

/// A worker's descriptors are its own: a job of one worker leaves those of the others as
/// they are.
pub proof fn law_descriptors_are_scoped_to_their_worker(
    state: Seq<WorkerView>,
    worker: usize,
    other: usize,
    op: Op,
    outcome: Outcome,
)
    requires
        job_exists(state, worker, op),
        other < state.len(),
        other != worker,
    ensures
        state.update(worker as int, worker_after(state[worker as int], op, outcome))[other as int]
            == state[other as int],
{
}

/// No open file is lost: what was open before a job is open after it, in a slot or leaked,
/// unless the job closed it.
pub proof fn law_open_files_are_kept(w: WorkerView, op: Op, outcome: Outcome, file: u64)
    requires
        op.slot_of() matches Some(slot) ==> slot < w.slots.len(),
        op matches Op::Dup { dst_slot, .. } ==> dst_slot < w.slots.len(),
        w.slots.contains(FdSlot::Open(file)) || w.leaked.contains(file),
    ensures
        ({
            let after = worker_after(w, op, outcome);
            ||| after.slots.contains(FdSlot::Open(file))
            ||| after.leaked.contains(file)
            ||| (op matches Op::Close { slot } && w.slots[slot as int] == FdSlot::Open(file))
        }),
{
    let after = worker_after(w, op, outcome);
    if w.leaked.contains(file) {
        let i = choose|i: int| 0 <= i < w.leaked.len() && w.leaked[i] == file;
        assert(after.leaked[i] == file);
    } else {
        let i = choose|i: int| 0 <= i < w.slots.len() && w.slots[i] == FdSlot::Open(file);
        if after.slots[i] != FdSlot::Open(file) {
            if !(op is Close) {
                assert(after.leaked.last() == file);
            }
        }
    }
}

/// What an operation returns can be held by a report without loss, unless it is a count
/// past what a signed number holds.
pub proof fn law_results_are_reportable(op: Op, outcome: Outcome, wasm: bool)
    requires
        answers(op, outcome),
        outcome matches Outcome::Data(bytes) ==> bytes@.len() <= i64::MAX,
        outcome matches Outcome::Names(names) ==> listing_bytes(names@).len() <= i64::MAX,
    ensures
        result_of(op, outcome, wasm).reportable(),
{
    let r = result_of(op, outcome, wasm);
    if outcome is Failed {
        assert(r =~= OpResultView::of_err(r.err));
    }
}

/// The steps of a case, run one after the other.
pub struct CaseRun {
    pub steps: Vec<ScheduledStep>,
    pub idx: usize,
}

impl CaseRun {
    pub open spec fn wf(&self) -> bool {
        self.idx <= self.steps@.len()
    }

    pub fn new(steps: Vec<ScheduledStep>) -> (run: Self)
        ensures
            run.wf(),
            run.steps@ == steps@,
            run.idx == 0,
    {
        CaseRun { steps, idx: 0 }
    }

    /// The step to run now, which the sink is told of; nothing where all were run.
    pub fn begin_step<S: ReportSink>(&self, sink: &mut S) -> (r: Option<ScheduledStep>)
        requires
            self.wf(),
        ensures
            match r {
                Some(step) => {
                    &&& self.idx < self.steps@.len()
                    &&& step == self.steps@[self.idx as int]
                    &&& old(sink).took(
                        Entry::Step {
                            step: (self.idx + 1) as usize,
                            worker: step.worker,
                            op: step.op,
                        },
                        *final(sink),
                    )
                },
                None => self.idx == self.steps@.len() && *final(sink) == *old(sink),
            },
    {
        if self.idx == self.steps.len() {
            return None;
        }
        let step = self.steps[self.idx];
        sink.step(self.idx + 1, step.worker, step.op);
        Some(step)
    }

    /// Takes in what the current step returned.
    pub fn finish_step<S: ReportSink>(&mut self, result: &OpResult, sink: &mut S)
        requires
            old(self).wf(),
            old(self).idx < old(self).steps@.len(),
        ensures
            final(self).wf(),
            final(self).steps == old(self).steps,
            final(self).idx == old(self).idx + 1,
            old(sink).took(
                Entry::Result {
                    step: (old(self).idx + 1) as usize,
                    worker: old(self).steps@[old(self).idx as int].worker,
                    op: old(self).steps@[old(self).idx as int].op,
                    result: result@,
                },
                *final(sink),
            ),
    {
        let step = self.steps[self.idx];
        let total: usize = self.steps.len();
        assert(self.idx < total);
        self.idx = self.idx + 1;
        sink.result(self.idx, step.worker, step.op, result);
    }
}

/// Whether an operation of the chain opens `fixture`.
pub open spec fn opens(chain: Seq<Op>, fixture: FileId) -> bool {
    exists|i: int|
        0 <= i < chain.len() && (#[trigger] chain[i] matches Op::Open { file, .. } && file
            == fixture)
}

/// The fixtures that a chain opens, in their order.
pub open spec fn opened_fixtures(chain: Seq<Op>) -> Seq<FileId> {
    let first = if opens(chain, FileId::Fixture1) {
        seq![FileId::Fixture1]
    } else {
        Seq::empty()
    };
    if opens(chain, FileId::Fixture2) {
        first.push(FileId::Fixture2)
    } else {
        first
    }
}

fn chain_opens(chain: &[Op], fixture: FileId) -> (r: bool)
    ensures
        r == opens(chain@, fixture),
{
    let mut i: usize = 0;
    while i < chain.len()
        invariant
            i <= chain@.len(),
            forall|j: int|
                0 <= j < i ==> !(#[trigger] chain@[j] matches Op::Open { file, .. } && file
                    == fixture),
        decreases chain@.len() - i,
    {
        if let Op::Open { file, .. } = chain[i] {
            if file == fixture {
                assert(chain@[i as int] matches Op::Open { file, .. } && file == fixture);
                return true;
            }
        }
        i = i + 1;
    }
    false
}

pub fn fixture_snapshots_for_chain(chain: &[Op]) -> (fixtures: Vec<FileId>)
    ensures
        fixtures@ == opened_fixtures(chain@),
{
    let mut fixtures: Vec<FileId> = Vec::new();
    if chain_opens(chain, FileId::Fixture1) {
        fixtures.push(FileId::Fixture1);
    }
    if chain_opens(chain, FileId::Fixture2) {
        fixtures.push(FileId::Fixture2);
    }
    assert(fixtures@ =~= opened_fixtures(chain@));
    fixtures
}

/// The files that a case records at its end: the persistent ones, then the fixtures that it
/// opened.
pub open spec fn recorded_files(chain: Seq<Op>) -> Seq<FileId> {
    SNAPSHOT_FILES@ + opened_fixtures(chain)
}

pub fn files_to_record(chain: &[Op]) -> (files: Vec<FileId>)
    ensures
        files@ == recorded_files(chain@),
{
    let mut files: Vec<FileId> = Vec::new();
    files.push(SNAPSHOT_FILES[0]);
    files.push(SNAPSHOT_FILES[1]);
    let mut fixtures = fixture_snapshots_for_chain(chain);
    files.append(&mut fixtures);
    assert(files@ =~= recorded_files(chain@));
    files
}

/// What reading a file gave.
pub enum FileRead {
    Data(Vec<u8>),
    Missing,
    Failed(String),
}

/// The snapshot of `file` that its contents make.
pub open spec fn snapshot_of(
    case_id: usize,
    case_name: Seq<char>,
    file: FileId,
    data: Option<Seq<u8>>,
) -> SnapshotView {
    SnapshotView {
        case_id,
        file,
        rel: case_name + "/"@ + file.name_text(),
        exists: data is Some,
        len: match data {
            Some(bytes) => bytes.len() as u64,
            None => 0,
        },
        hash: match data {
            Some(bytes) => fnv(bytes),
            None => 0,
        },
    }
}

/// Tells the sink what the file of a case holds. A file that could not be read, other than
/// for want of one, is an error.
pub fn snapshot<S: ReportSink>(
    case_id: usize,
    case_name: &str,
    file: FileId,
    path: &str,
    read: &FileRead,
    sink: &mut S,
) -> (r: Result<(), String>)
    ensures
        match *read {
            FileRead::Data(bytes) => r is Ok && old(sink).took(
                Entry::Snapshot {
                    snapshot: snapshot_of(case_id, case_name@, file, Some(bytes@)),
                },
                *final(sink),
            ),
            FileRead::Missing => r is Ok && old(sink).took(
                Entry::Snapshot { snapshot: snapshot_of(case_id, case_name@, file, None) },
                *final(sink),
            ),
            FileRead::Failed(text) => {
                &&& *final(sink) == *old(sink)
                &&& r matches Err(e) && e@ == "failed to read "@ + path@ + ": "@ + text@
            },
        },
{
    let rel = case_name.to_string().concat("/").concat(file.name());
    let shot = match read {
        FileRead::Data(bytes) => FileSnapshot {
            case_id,
            file,
            rel,
            exists: true,
            len: bytes.len() as u64,
            hash: stable_hash(bytes.as_slice()),
        },
        FileRead::Missing => FileSnapshot { case_id, file, rel, exists: false, len: 0, hash: 0 },
        FileRead::Failed(text) => {
            return Err(
                "failed to read ".to_string().concat(path).concat(": ").concat(text.as_str()),
            );
        },
    };
    sink.snapshot(&shot);
    Ok(())
}

} // verus!
