//! The scenarios of a coordinated run, as lists of moves.

use vstd::prelude::*;
use vstd::string::*;
use vstd::utf8::*;

use crate::cli::{copy_opt, opt_text, Cli};
use crate::fsx::Config;
use crate::fsx_run::worker_count;
use crate::text::{dec, push_dec, same_text};
use crate::worker::LogSink;
use crate::world::{failed, OpenFlags, RunError};

verus! {

/// The settings of a coordinated run.
pub struct RunConfig {
    pub root: String,
    pub scenario: String,
    pub workers: usize,
    pub files: usize,
    pub handles: usize,
    pub parallelism: usize,
    pub verify_every: Option<u64>,
    pub numops: u64,
    pub seed: u64,
    pub flen: usize,
    pub opsize_min: usize,
    pub opsize_max: usize,
    pub manifest: Option<String>,
    pub inject: Option<u64>,
}

pub open spec fn larger(a: int, b: int) -> int {
    if a < b {
        b
    } else {
        a
    }
}

pub open spec fn smaller(a: int, b: int) -> int {
    if b < a {
        b
    } else {
        a
    }
}

fn larger_of(a: usize, b: usize) -> (m: usize)
    ensures
        m == larger(a as int, b as int),
{
    if a < b {
        b
    } else {
        a
    }
}

fn smaller_of(a: usize, b: usize) -> (m: usize)
    ensures
        m == smaller(a as int, b as int),
{
    if b < a {
        b
    } else {
        a
    }
}

/// Whether `c` holds the settings that the options and the configuration ask for.
pub open spec fn settings_from(
    c: RunConfig,
    cli: Cli,
    config: Config,
    available: Option<usize>,
) -> bool {
    &&& cli@.fname == Some(c.root@)
    &&& c.scenario@ == cli@.scenario
    &&& c.workers == larger(
        match (cli.threads, available) {
            (Some(n), _) => n as int,
            (None, Some(n)) => n as int,
            (None, None) => 1,
        },
        1,
    )
    &&& c.files == larger(cli.files as int, 1)
    &&& c.handles == larger(cli.handles as int, 1)
    &&& c.parallelism == larger(cli.parallelism as int, 1)
    &&& c.verify_every == cli.verify_every
    &&& c.numops == larger(
        match cli.numops {
            Some(n) => n as int,
            None => 32,
        },
        1,
    )
    &&& c.seed == match cli.seed {
        Some(n) => n,
        None => 1,
    }
    &&& c.flen == match config.flen {
        Some(n) => n as usize,
        None => 262_144,
    }
    &&& c.opsize_min == config.opsize.min
    &&& c.opsize_max == larger(
        config.opsize.max as int,
        larger(config.opsize.min as int, 1),
    )
    &&& opt_text(c.manifest) == cli@.manifest
    &&& c.inject == cli.inject
}

impl RunConfig {
    /// The settings, with counts of at least one.
    pub fn from_cli(cli: &Cli, config: &Config, available: Option<usize>) -> (r: Result<
        Self,
        RunError,
    >)
        ensures
            match r {
                Ok(c) => settings_from(c, *cli, *config, available),
                Err(e) => cli@.fname is None && e@ == failed(
                    "syscall-error"@,
                    "run root is required"@,
                ),
            },
            r is Ok == cli@.fname is Some,
    {
        let root = match &cli.fname {
            Some(root) => root.clone(),
            None => {
                return Err(RunError::new("syscall-error", "run root is required".to_string()));
            },
        };
        let numops: u64 = match cli.numops {
            Some(n) => if n < 1 {
                1
            } else {
                n
            },
            None => 32,
        };
        let seed: u64 = match cli.seed {
            Some(n) => n,
            None => 1,
        };
        let flen: usize = match config.flen {
            Some(n) => n as usize,
            None => 256 * 1024,
        };
        Ok(
            RunConfig {
                root,
                scenario: cli.scenario.clone(),
                workers: larger_of(worker_count(cli, available), 1),
                files: larger_of(cli.files, 1),
                handles: larger_of(cli.handles, 1),
                parallelism: larger_of(cli.parallelism, 1),
                verify_every: cli.verify_every,
                numops,
                seed,
                flen,
                opsize_min: config.opsize.min,
                opsize_max: larger_of(config.opsize.max, larger_of(config.opsize.min, 1)),
                manifest: copy_opt(&cli.manifest),
                inject: cli.inject,
            },
        )
    }

    /// Whether there are workers and files, and the places that they write to are numbers.
    pub open spec fn wf(&self) -> bool {
        &&& 1 <= self.workers
        &&& 1 <= self.files
        &&& self.workers * larger(marker_size(*self, shared_size(*self)) as int, 128) <= usize::MAX
        &&& self.workers * larger(marker_size(*self, shared_size(*self)) as int, 128) <= u64::MAX
    }
}

/// The size of a marker of at least `min_size` bytes, within the limits of the run.
pub open spec fn marker_size(c: RunConfig, min_size: usize) -> usize {
    smaller(
        smaller(larger(min_size as int, 1), larger(c.opsize_max as int, 1)),
        larger(c.flen as int, 1),
    ) as usize
}

/// The size asked for of the markers in a shared file.
pub open spec fn shared_size(c: RunConfig) -> usize {
    larger(c.opsize_min as int, 128) as usize
}

/// What a marker says of itself.
#[derive(Clone, Copy, Debug, PartialEq, Eq, Structural)]
pub struct Mark {
    pub worker: usize,
    pub handle: u64,
    pub path_id: usize,
    pub min_size: usize,
}

pub open spec fn marker_text(seed: u64, step: u64, m: Mark) -> Seq<char> {
    "FSXMARK step="@ + dec(step as nat) + " worker="@ + dec(m.worker as nat) + " handle="@ + dec(
        m.handle as nat,
    ) + " path="@ + dec(m.path_id as nat) + " seed="@ + dec(seed as nat) + " "@
}

/// The bytes of a marker: its text, over and over, up to its size.
pub open spec fn marker_bytes(c: RunConfig, step: u64, m: Mark) -> Seq<u8> {
    let text = encode_utf8(marker_text(c.seed, step, m));
    Seq::new(marker_size(c, m.min_size) as nat, |i: int| text[i % text.len() as int])
}

impl RunConfig {
    pub fn size_of_marker(&self, min_size: usize) -> (n: usize)
        ensures
            n == marker_size(*self, min_size),
    {
        smaller_of(
            smaller_of(larger_of(min_size, 1), larger_of(self.opsize_max, 1)),
            larger_of(self.flen, 1),
        )
    }

    pub fn marker(&self, step: u64, m: Mark) -> (out: Vec<u8>)
        ensures
            out@ == marker_bytes(*self, step, m),
    {
        let mut text = "FSXMARK step=".to_string();
        push_dec(&mut text, step);
        text.append(" worker=");
        push_dec(&mut text, m.worker as u64);
        text.append(" handle=");
        push_dec(&mut text, m.handle);
        text.append(" path=");
        push_dec(&mut text, m.path_id as u64);
        text.append(" seed=");
        push_dec(&mut text, self.seed);
        text.append(" ");
        proof {
            reveal_strlit(" ");
            assert(text@.last() == ' ');
            lemma_some_byte(text@);
        }
        let line = text.as_str();
        let bytes = line.as_bytes();
        let period: usize = bytes.len();
        let size: usize = self.size_of_marker(m.min_size);
        let mut out: Vec<u8> = Vec::new();
        let mut i: usize = 0;
        while i < size
            invariant
                i <= size,
                period == bytes@.len(),
                period > 0,
                out@ == Seq::new(i as nat, |k: int| bytes@[k % period as int]),
            decreases size - i,
        {
            out.push(bytes[i % period]);
            i = i + 1;
            assert(out@ =~= Seq::new(i as nat, |k: int| bytes@[k % period as int]));
        }
        assert(out@ =~= marker_bytes(*self, step, m));
        out
    }
}

proof fn lemma_some_byte(s: Seq<char>)
    requires
        s.len() > 0,
    ensures
        encode_utf8(s).len() > 0,
{
    assert(encode_utf8(s).len() > 0) by {
        reveal_with_fuel(encode_utf8, 2);
    }
}

/// One move of a scenario.
pub enum Move {
    Open { worker: usize, handle: u64, path: String, flags: OpenFlags },
    Close { worker: usize, handle: u64 },
    Write { worker: usize, handle: u64, offset: u64, mark: Mark },
    ReadVerify { worker: usize, handle: u64, offset: u64, size: usize },
    FreshVerify { worker: usize, path: String },
    SeekTo { worker: usize, handle: u64, offset: u64 },
    Append { worker: usize, handle: u64, mark: Mark },
    /// The first `count` workers append at once.
    AppendTogether { count: usize },
    Unlink { worker: usize, path: String },
    Rename { worker: usize, from: String, to: String },
    SwitchLog { worker: usize, sink: LogSink },
    WriteLog { worker: usize, handle: u64, mark: Mark },
    Stderr { worker: usize },
    VerifyAll,
}

#[verifier::ext_equal]
pub enum MoveView {
    Open { worker: usize, handle: u64, path: Seq<char>, flags: OpenFlags },
    Close { worker: usize, handle: u64 },
    Write { worker: usize, handle: u64, offset: u64, mark: Mark },
    ReadVerify { worker: usize, handle: u64, offset: u64, size: usize },
    FreshVerify { worker: usize, path: Seq<char> },
    SeekTo { worker: usize, handle: u64, offset: u64 },
    Append { worker: usize, handle: u64, mark: Mark },
    AppendTogether { count: usize },
    Unlink { worker: usize, path: Seq<char> },
    Rename { worker: usize, from: Seq<char>, to: Seq<char> },
    SwitchLog { worker: usize, sink: LogSink },
    WriteLog { worker: usize, handle: u64, mark: Mark },
    Stderr { worker: usize },
    VerifyAll,
}

impl View for Move {
    type V = MoveView;

    open spec fn view(&self) -> MoveView {
        match *self {
            Move::Open { worker, handle, path, flags } => MoveView::Open {
                worker,
                handle,
                path: path@,
                flags,
            },
            Move::Close { worker, handle } => MoveView::Close { worker, handle },
            Move::Write { worker, handle, offset, mark } => MoveView::Write {
                worker,
                handle,
                offset,
                mark,
            },
            Move::ReadVerify { worker, handle, offset, size } => MoveView::ReadVerify {
                worker,
                handle,
                offset,
                size,
            },
            Move::FreshVerify { worker, path } => MoveView::FreshVerify { worker, path: path@ },
            Move::SeekTo { worker, handle, offset } => MoveView::SeekTo { worker, handle, offset },
            Move::Append { worker, handle, mark } => MoveView::Append { worker, handle, mark },
            Move::AppendTogether { count } => MoveView::AppendTogether { count },
            Move::Unlink { worker, path } => MoveView::Unlink { worker, path: path@ },
            Move::Rename { worker, from, to } => MoveView::Rename {
                worker,
                from: from@,
                to: to@,
            },
            Move::SwitchLog { worker, sink } => MoveView::SwitchLog { worker, sink },
            Move::WriteLog { worker, handle, mark } => MoveView::WriteLog { worker, handle, mark },
            Move::Stderr { worker } => MoveView::Stderr { worker },
            Move::VerifyAll => MoveView::VerifyAll,
        }
    }
}

pub open spec fn move_views(moves: Seq<Move>) -> Seq<MoveView> {
    moves.map_values(|m: Move| m@)
}

/// What a scenario is made of.
#[derive(Clone, Copy, Debug, PartialEq, Eq, Structural)]
pub enum ScenarioKind {
    Random,
    SharedInode,
    IndependentOffsets,
    OverlappingWrites,
    StrongerRights,
    FdReuse,
    Append,
    UnlinkRecreate,
    Rename,
    WordpressLike,
    Injection,
}

/// The kind of the scenario with the given name.
pub open spec fn kind_named(name: Seq<char>) -> Option<ScenarioKind> {
    if name == "random"@ {
        Some(ScenarioKind::Random)
    } else if name == "shared-inode"@ || name == "same-file-positioned-io"@ || name
        == "fresh-open-after-every-write"@ || name == "close-all-final-verify"@ || name
        == "cross-worker-final-verify"@ || name == "restart-compatible-manifest"@ || name
        == "timeout-with-open-handles"@ {
        Some(ScenarioKind::SharedInode)
    } else if name == "same-file-independent-offsets"@ {
        Some(ScenarioKind::IndependentOffsets)
    } else if name == "same-file-overlapping-writes"@ {
        Some(ScenarioKind::OverlappingWrites)
    } else if name == "stronger-rights"@ || name == "read-handle-survives-write-open"@ || name
        == "stronger-rights-reopen"@ {
        Some(ScenarioKind::StrongerRights)
    } else if name == "fd-reuse"@ || name == "fd-reuse-close-after-open"@ || name
        == "fd-reuse-many-fillers"@ || name == "fd-try-clone-shape"@ || name
        == "fd-renumber-shape"@ || name == "close-while-peer-reads"@ {
        Some(ScenarioKind::FdReuse)
    } else if name == "append"@ || name == "append-serial"@ || name == "append-parallel-pairs"@
        || name == "append-after-stale-size-pressure"@ || name == "append-large-records"@ {
        Some(ScenarioKind::Append)
    } else if name == "unlink-recreate"@ || name == "unlink-open-handle"@ || name
        == "unlink-recreate-fd-reuse"@ {
        Some(ScenarioKind::UnlinkRecreate)
    } else if name == "rename-open-handle"@ || name == "rename-replace-existing"@ || name
        == "symlink-alias-same-file"@ {
        Some(ScenarioKind::Rename)
    } else if name == "wordpress-like"@ || name == "wp-render-read-set"@ || name
        == "wp-two-request"@ || name == "wp-debug-log-switch"@ || name
        == "wp-plugin-rewrite-while-included"@ || name == "wp-shutdown-function"@ || name
        == "wp-client-abort-shape"@ || name == "stderr-pressure"@ || name == "log-file-switch"@
        || name == "stdio-close-open-churn"@ || name == "log-handle-left-open"@ {
        Some(ScenarioKind::WordpressLike)
    } else if name == "inject-wrong-byte"@ || name == "inject-wrong-file"@ || name
        == "inject-short-write-model"@ {
        Some(ScenarioKind::Injection)
    } else {
        None
    }
}

pub fn scenario_kind(name: &str) -> (r: Result<ScenarioKind, RunError>)
    ensures
        match r {
            Ok(kind) => kind_named(name@) == Some(kind),
            Err(e) => kind_named(name@) is None && e@ == failed(
                "syscall-error"@,
                "unknown scenario "@ + name@,
            ),
        },
{
    if same_text(name, "random") {
        Ok(ScenarioKind::Random)
    } else if same_text(name, "shared-inode") || same_text(name, "same-file-positioned-io")
        || same_text(name, "fresh-open-after-every-write") || same_text(
        name,
        "close-all-final-verify",
    ) || same_text(name, "cross-worker-final-verify") || same_text(
        name,
        "restart-compatible-manifest",
    ) || same_text(name, "timeout-with-open-handles") {
        Ok(ScenarioKind::SharedInode)
    } else if same_text(name, "same-file-independent-offsets") {
        Ok(ScenarioKind::IndependentOffsets)
    } else if same_text(name, "same-file-overlapping-writes") {
        Ok(ScenarioKind::OverlappingWrites)
    } else if same_text(name, "stronger-rights") || same_text(
        name,
        "read-handle-survives-write-open",
    ) || same_text(name, "stronger-rights-reopen") {
        Ok(ScenarioKind::StrongerRights)
    } else if same_text(name, "fd-reuse") || same_text(name, "fd-reuse-close-after-open")
        || same_text(name, "fd-reuse-many-fillers") || same_text(name, "fd-try-clone-shape")
        || same_text(name, "fd-renumber-shape") || same_text(name, "close-while-peer-reads") {
        Ok(ScenarioKind::FdReuse)
    } else if same_text(name, "append") || same_text(name, "append-serial") || same_text(
        name,
        "append-parallel-pairs",
    ) || same_text(name, "append-after-stale-size-pressure") || same_text(
        name,
        "append-large-records",
    ) {
        Ok(ScenarioKind::Append)
    } else if same_text(name, "unlink-recreate") || same_text(name, "unlink-open-handle")
        || same_text(name, "unlink-recreate-fd-reuse") {
        Ok(ScenarioKind::UnlinkRecreate)
    } else if same_text(name, "rename-open-handle") || same_text(name, "rename-replace-existing")
        || same_text(name, "symlink-alias-same-file") {
        Ok(ScenarioKind::Rename)
    } else if same_text(name, "wordpress-like") || same_text(name, "wp-render-read-set")
        || same_text(name, "wp-two-request") || same_text(name, "wp-debug-log-switch")
        || same_text(name, "wp-plugin-rewrite-while-included") || same_text(
        name,
        "wp-shutdown-function",
    ) || same_text(name, "wp-client-abort-shape") || same_text(name, "stderr-pressure")
        || same_text(name, "log-file-switch") || same_text(name, "stdio-close-open-churn")
        || same_text(name, "log-handle-left-open") {
        Ok(ScenarioKind::WordpressLike)
    } else if same_text(name, "inject-wrong-byte") || same_text(name, "inject-wrong-file")
        || same_text(name, "inject-short-write-model") {
        Ok(ScenarioKind::Injection)
    } else {
        Err(RunError::new("syscall-error", "unknown scenario ".to_string().concat(name)))
    }
}

/// How often a scenario is gone through.
pub open spec fn rounds_of(kind: ScenarioKind, numops: u64) -> u64 {
    match kind {
        ScenarioKind::IndependentOffsets
        | ScenarioKind::OverlappingWrites
        | ScenarioKind::Rename
        | ScenarioKind::Injection => 1,
        _ => numops,
    }
}

pub fn rounds(kind: ScenarioKind, numops: u64) -> (n: u64)
    ensures
        n == rounds_of(kind, numops),
{
    match kind {
        ScenarioKind::IndependentOffsets
        | ScenarioKind::OverlappingWrites
        | ScenarioKind::Rename
        | ScenarioKind::Injection => 1,
        _ => numops,
    }
}

/// The kind that a round of a random run takes for the number that it drew.
pub open spec fn drawn_kind(n: i32) -> ScenarioKind {
    if n == 0 {
        ScenarioKind::SharedInode
    } else if n == 1 {
        ScenarioKind::FdReuse
    } else if n == 2 {
        ScenarioKind::Append
    } else if n == 3 {
        ScenarioKind::UnlinkRecreate
    } else if n == 4 {
        ScenarioKind::StrongerRights
    } else {
        ScenarioKind::WordpressLike
    }
}

pub fn kind_drawn(n: i32) -> (kind: ScenarioKind)
    ensures
        kind == drawn_kind(n),
{
    if n == 0 {
        ScenarioKind::SharedInode
    } else if n == 1 {
        ScenarioKind::FdReuse
    } else if n == 2 {
        ScenarioKind::Append
    } else if n == 3 {
        ScenarioKind::UnlinkRecreate
    } else if n == 4 {
        ScenarioKind::StrongerRights
    } else {
        ScenarioKind::WordpressLike
    }
}

} // verus!
