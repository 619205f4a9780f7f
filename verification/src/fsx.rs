//! The exerciser: random operations on one file, and what the file ought to hold.

use rand_xorshift::XorShiftRng;
use vstd::prelude::*;
use vstd::string::*;

use crate::cli::{copy_opt, opt_text, Cli};
use crate::compare::verdict_text;
use crate::oplog::{
    entry_added, log_capacity, log_entries, log_pushed, LogEntry, Op, OpLog, LOG_CAPACITY,
};
use crate::paths::last_name;
use crate::selection::generated_sample_seed;
use crate::text::{
    dec, hex, hex_0x, pad_left, pad_right, push_dec_wide, push_hex_0x, push_padded_right,
};
use crate::xorshift::{
    bytes_drawn, draw_between, draw_bytes, draw_u32, number_drawn, seed_rng, seeded, word_drawn,
    words,
};

verus! {

/// The width of the widest number up to `max`, as it is printed.
pub open spec fn widest(max: nat, in_hex: bool) -> nat {
    if in_hex {
        hex_0x(max).len()
    } else {
        dec(max).len()
    }
}

/// Calculates the field width needed to print numbers up to this size; hexadecimal ones
/// have `0x` in front.
pub fn field_width(max: usize, hex: bool) -> (width: usize)
    ensures
        width == widest(max as nat, hex),
{
    let base: usize = if hex {
        16
    } else {
        10
    };
    let mut width: usize = 1;
    let mut left: usize = max;
    proof {
        reveal_strlit("0x");
        lemma_digits(max as nat);
    }
    while left >= base
        invariant
            base == if hex {
                16usize
            } else {
                10
            },
            width <= 64,
            width + digits_of(left as nat, base as nat) == 1 + digits_of(max as nat, base as nat),
            digits_of(max as nat, base as nat) <= 64,
        decreases left,
    {
        proof {
            lemma_some_digit(left as nat, base as nat);
            lemma_some_digit((left / base) as nat, base as nat);
        }
        left = left / base;
        width = width + 1;
    }
    if hex {
        2 + width
    } else {
        width
    }
}

spec fn digits_of(n: nat, base: nat) -> nat {
    if base == 16 {
        hex(n).len()
    } else {
        dec(n).len()
    }
}

proof fn lemma_some_digit(n: nat, base: nat)
    ensures
        digits_of(n, base) >= 1,
        n >= 10 && base != 16 ==> digits_of(n, base) == digits_of(n / 10, base) + 1,
        n >= 16 && base == 16 ==> digits_of(n, base) == digits_of(n / 16, base) + 1,
{
}

proof fn lemma_digits(n: nat)
    requires
        n <= usize::MAX,
    ensures
        hex(n).len() <= 64,
        dec(n).len() <= 64,
{
    lemma_digits_under(n, 63);
}

spec fn two_to(k: nat) -> nat
    decreases k,
{
    if k == 0 {
        1
    } else {
        2 * two_to((k - 1) as nat)
    }
}

proof fn lemma_digits_under(n: nat, k: nat)
    requires
        n < two_to(k + 1) || k == 63 && n <= usize::MAX,
        k <= 63,
    ensures
        hex(n).len() <= k + 1,
        dec(n).len() <= k + 1,
    decreases k,
{
    if n >= 10 {
        if k == 0 {
            reveal_with_fuel(two_to, 3);
        } else {
            assert(n < two_to(k + 1)) by {
                if k == 63 {
                    reveal_with_fuel(two_to, 65);
                }
            }
            lemma_digits_under(n / 10, (k - 1) as nat);
            lemma_digits_under(n / 16, (k - 1) as nat);
        }
    }
}

pub fn default_flen() -> (n: u64)
    ensures
        n == 262_144,
{
    256 * 1024
}

pub fn default_opsize_max() -> (n: usize)
    ensures
        n == 65_536,
{
    65536
}

/// Sizes of operations. An alignment is at least one.
#[derive(Clone, Copy, Debug, PartialEq, Eq, Structural)]
pub struct Opsize {
    pub min: usize,
    pub max: usize,
    pub align: Option<usize>,
}

impl Opsize {
    /// The alignment; one where none is given.
    pub open spec fn alignment(self) -> usize {
        match self.align {
            Some(align) => align,
            None => 1,
        }
    }
}

impl Default for Opsize {
    fn default() -> (o: Self)
        ensures
            o == (Opsize { min: 0, max: 65536, align: Some(1usize) }),
    {
        Opsize { min: 0, max: 65536, align: Some(1) }
    }
}

/// The settings of a run, but for the weights of its operations.
#[derive(Clone, Copy, Debug, PartialEq, Eq, Structural)]
pub struct Config {
    /// Maximum file size.
    pub flen: Option<u32>,
    /// Whether file sizes are left unverified.
    pub nosizechecks: bool,
    pub opsize: Opsize,
}

/// What is wrong with a configuration, if anything is.
pub open spec fn config_verdict(c: Config) -> Result<(), Seq<char>> {
    if c.flen == Some(0u32) {
        Err("file length must be greater than zero"@)
    } else if c.opsize.max == 0 {
        Err("Maximum operation size must be greater than zero"@)
    } else if c.opsize.min > c.opsize.max {
        Err("Minimum operation size must be no greater than maximum"@)
    } else if c.opsize.alignment() > c.opsize.max {
        Err("operation alignment must be no greater than maximum operation size"@)
    } else {
        Ok(())
    }
}

impl Config {
    /// The maximum file size; the usual one where none is given.
    pub open spec fn file_limit(self) -> u64 {
        match self.flen {
            Some(flen) => flen as u64,
            None => 262_144,
        }
    }

    pub fn validate_result(&self) -> (r: Result<(), String>)
        ensures
            verdict_text(r) == config_verdict(*self),
    {
        if let Some(flen) = self.flen {
            if flen == 0 {
                return Err("file length must be greater than zero".to_string());
            }
        }
        if self.opsize.max == 0 {
            return Err("Maximum operation size must be greater than zero".to_string());
        }
        if self.opsize.min > self.opsize.max {
            return Err("Minimum operation size must be no greater than maximum".to_string());
        }
        let align: usize = match self.opsize.align {
            Some(align) => align,
            None => 1,
        };
        if align > self.opsize.max {
            return Err(
                "operation alignment must be no greater than maximum operation size".to_string(),
            );
        }
        Ok(())
    }
}

/// The seed of a run: the one asked for, or else any. Where none is asked for and none can be
/// drawn, this is an error.
pub fn run_seed(cli: &Cli) -> (r: Result<u64, String>)
    ensures
        cli.seed matches Some(asked) ==> r == Ok::<u64, String>(asked),
{
    match cli.seed {
        Some(seed) => Ok(seed),
        None => generated_sample_seed(),
    }
}

/// The numbers that a step draws.
#[derive(Clone, Copy, Debug, PartialEq, Eq, Structural)]
pub struct Draws {
    pub size: usize,
    pub offset: u32,
    pub length: u32,
}

/// The numbers that a step draws from a generator that holds `words`, and the words that it
/// holds afterwards. Only a truncation draws a length.
pub open spec fn step_draws(words: Seq<u32>, opsize: Opsize, op: Op) -> (Draws, Seq<u32>) {
    let (size, after_size) = number_drawn(words, opsize.min, opsize.max, usize::BITS);
    let (offset, after_offset) = word_drawn(after_size);
    if op is Truncate {
        let (length, after_length) = word_drawn(after_offset);
        (Draws { size, offset, length }, after_length)
    } else {
        (Draws { size, offset, length: 0 }, after_offset)
    }
}

/// Draws the numbers of a step; only a truncation draws a length.
pub fn draw_step(rng: &mut XorShiftRng, opsize: Opsize, op: Op) -> (d: Draws)
    requires
        opsize.min <= opsize.max,
    ensures
        (d, words(*final(rng))) == step_draws(words(*old(rng)), opsize, op),
        opsize.min <= d.size <= opsize.max,
{
    let size: usize = draw_between(rng, opsize.min, opsize.max);
    let offset: u32 = draw_u32(rng);
    let length: u32 = match op {
        Op::Truncate => draw_u32(rng),
        _ => 0,
    };
    Draws { size, offset, length }
}

/// An exerciser by its values.
#[verifier::ext_equal]
pub struct FsxView {
    pub align: usize,
    pub file_size: u64,
    pub flen: u64,
    pub good: Seq<u8>,
    pub original: Seq<u8>,
    pub log: Seq<LogEntry>,
    pub steps: u64,
    pub simulated: u64,
    pub inject: Option<u64>,
    pub monitor: Option<(u64, u64)>,
    pub fwidth: usize,
    pub swidth: usize,
    pub stepwidth: usize,
}

/// What the file ought to hold.
pub open spec fn file_contents(v: FsxView) -> Seq<u8> {
    v.good.take(v.file_size as int)
}

/// How loud a line of a log is.
#[derive(Clone, Copy, Debug, PartialEq, Eq, Structural)]
pub enum LogLevel {
    Debug,
    Info,
    Warn,
}

/// What is to be done to the file.
pub enum Action {
    Nothing,
    CloseOpen,
    Read { offset: u64, size: usize },
    Write { offset: u64, bytes: Vec<u8> },
    SetLen { len: u64 },
    Fsync,
    Fdatasync,
}

pub enum ActionView {
    Nothing,
    CloseOpen,
    Read { offset: u64, size: usize },
    Write { offset: u64, bytes: Seq<u8> },
    SetLen { len: u64 },
    Fsync,
    Fdatasync,
}

impl View for Action {
    type V = ActionView;

    open spec fn view(&self) -> ActionView {
        match *self {
            Action::Nothing => ActionView::Nothing,
            Action::CloseOpen => ActionView::CloseOpen,
            Action::Read { offset, size } => ActionView::Read { offset, size },
            Action::Write { offset, bytes } => ActionView::Write { offset, bytes: bytes@ },
            Action::SetLen { len } => ActionView::SetLen { len },
            Action::Fsync => ActionView::Fsync,
            Action::Fdatasync => ActionView::Fdatasync,
        }
    }
}

/// What a step does: to the file, and in the log.
pub struct Step {
    pub action: Action,
    pub line: Option<(LogLevel, String)>,
}

pub open spec fn line_view(line: Option<(LogLevel, String)>) -> Option<(LogLevel, Seq<char>)> {
    match line {
        Some((level, text)) => Some((level, text@)),
        None => None,
    }
}

/// Whether a step is only simulated, or left out to inject an error.
pub open spec fn skips(v: FsxView) -> bool {
    v.steps <= v.simulated || Some(v.steps) == v.inject
}

/// Whether some of the bytes from `offset` on are monitored.
pub open spec fn monitored(v: FsxView, offset: u64, size: nat) -> bool {
    v.monitor matches Some((start, end)) && start < offset + size && offset <= end
}

/// The level of a line about the bytes at `offset`, and at `offset2` where there is one: loud
/// where some are monitored.
pub open spec fn level_of(v: FsxView, offset: u64, offset2: Option<u64>, size: nat) -> LogLevel {
    if monitored(v, offset, size) || (offset2 matches Some(other) && monitored(v, other, size)) {
        LogLevel::Warn
    } else {
        LogLevel::Info
    }
}

/// The number of a step, as lines begin with it.
pub open spec fn step_text(v: FsxView) -> Seq<char> {
    pad_left(dec(v.steps as nat), v.stepwidth as nat, ' ')
}

pub open spec fn offset_text(v: FsxView, n: nat) -> Seq<char> {
    pad_left(hex_0x(n), v.fwidth as nat, ' ')
}

pub open spec fn size_text(v: FsxView, n: nat) -> Seq<char> {
    pad_left(hex_0x(n), v.swidth as nat, ' ')
}

/// The line about a read or a write.
pub open spec fn io_line(v: FsxView, op: Op, offset: u64, size: usize) -> (LogLevel, Seq<char>) {
    (
        level_of(v, offset, None, size as nat),
        step_text(v) + " "@ + pad_right(op.name_text(), 8) + " "@ + offset_text(v, offset as nat)
            + " .. "@ + offset_text(v, (offset + size - 1) as nat) + " ("@ + size_text(
            v,
            size as nat,
        ) + " bytes)"@,
    )
}

/// The number that a step leaves in a byte: its own, with the original byte added at odd
/// places.
pub open spec fn stamp(steps: u64, original: Seq<u8>, i: int) -> u8 {
    if i % 2 == 0 {
        (steps % 256) as u8
    } else {
        ((steps % 256 + original[i]) % 256) as u8
    }
}

/// The buffer once a step has written `size` bytes at `offset`, past a hole of zeros where
/// there is one.
pub open spec fn written(v: FsxView, offset: int, size: int) -> Seq<u8> {
    Seq::new(
        v.good.len(),
        |i: int|
            if offset <= i < offset + size {
                stamp(v.steps, v.original, i)
            } else if v.file_size <= i < offset {
                0u8
            } else {
                v.good[i]
            },
    )
}

/// The exerciser and the action of a write.
pub open spec fn write_step(v: FsxView, op: Op, offset: u64, size: usize) -> (
    FsxView,
    ActionView,
    Option<(LogLevel, Seq<char>)>,
) {
    if size == 0 {
        (
            FsxView { log: entry_added(v.log, LogEntry::Skip(op)), ..v },
            ActionView::Nothing,
            Some((LogLevel::Debug, step_text(v) + " skipping zero size write"@)),
        )
    } else {
        let good = written(v, offset as int, size as int);
        let entry = if op is Write {
            LogEntry::Write(v.file_size, offset, size)
        } else {
            LogEntry::MapWrite(v.file_size, offset, size)
        };
        let after = FsxView {
            good,
            file_size: if v.file_size < offset + size {
                (offset + size) as u64
            } else {
                v.file_size
            },
            log: entry_added(v.log, entry),
            ..v
        };
        if skips(v) {
            (after, ActionView::Nothing, None)
        } else {
            (
                after,
                ActionView::Write {
                    offset,
                    bytes: good.subrange(offset as int, offset + size),
                },
                Some(io_line(v, op, offset, size)),
            )
        }
    }
}

/// The exerciser and the action of a read.
pub open spec fn read_step(v: FsxView, op: Op, offset: u64, size: usize) -> (
    FsxView,
    ActionView,
    Option<(LogLevel, Seq<char>)>,
) {
    if size == 0 {
        (
            FsxView { log: entry_added(v.log, LogEntry::Skip(op)), ..v },
            ActionView::Nothing,
            Some((LogLevel::Debug, step_text(v) + " skipping zero size read"@)),
        )
    } else if size + offset > v.file_size {
        (
            FsxView { log: entry_added(v.log, LogEntry::Skip(op)), ..v },
            ActionView::Nothing,
            Some((LogLevel::Debug, step_text(v) + " skipping seek/read past EoF"@)),
        )
    } else {
        let entry = if op is Read {
            LogEntry::Read(offset, size)
        } else {
            LogEntry::MapRead(offset, size)
        };
        let after = FsxView { log: entry_added(v.log, entry), ..v };
        if skips(v) {
            (after, ActionView::Nothing, None)
        } else {
            (after, ActionView::Read { offset, size }, Some(io_line(v, op, offset, size)))
        }
    }
}

/// The buffer once the file has been cut or grown to `size`; what it grows by is zeros.
pub open spec fn truncated(v: FsxView, size: u64) -> Seq<u8> {
    Seq::new(
        v.good.len(),
        |i: int|
            if v.file_size <= i < size {
                0u8
            } else {
                v.good[i]
            },
    )
}

/// The exerciser and the action of a truncation.
pub open spec fn truncate_step(v: FsxView, size: u64) -> (
    FsxView,
    ActionView,
    Option<(LogLevel, Seq<char>)>,
) {
    let after = FsxView {
        good: truncated(v, size),
        file_size: size,
        log: entry_added(v.log, LogEntry::Truncate(v.file_size, size)),
        ..v
    };
    if skips(v) {
        (after, ActionView::Nothing, None)
    } else {
        let level = match v.monitor {
            Some((_, end)) => if size <= end {
                LogLevel::Warn
            } else {
                LogLevel::Info
            },
            None => LogLevel::Info,
        };
        (
            after,
            ActionView::SetLen { len: size },
            Some(
                (
                    level,
                    step_text(v) + " truncate "@ + offset_text(v, v.file_size as nat) + " => "@
                        + offset_text(v, size as nat),
                ),
            ),
        )
    }
}

/// An operation that says its name and changes nothing that is tracked.
pub open spec fn plain_step(v: FsxView, entry: LogEntry, action: ActionView, name: Seq<char>) -> (
    FsxView,
    ActionView,
    Option<(LogLevel, Seq<char>)>,
) {
    let after = FsxView { log: entry_added(v.log, entry), ..v };
    if skips(v) {
        (after, ActionView::Nothing, None)
    } else {
        (after, action, Some((LogLevel::Info, step_text(v) + name)))
    }
}

/// `n` rounded down to a multiple of `align`.
pub open spec fn aligned(n: int, align: int) -> int {
    n - n % align
}

/// Where a write goes: within the file or right behind it, and not past the limit.
pub open spec fn write_place(v: FsxView, d: Draws) -> (u64, usize) {
    let range = if v.file_size + 1 < v.flen {
        v.file_size + 1
    } else {
        v.flen as int
    };
    let offset = aligned(
        if v.file_size == 0 {
            0
        } else {
            d.offset as int % range
        },
        v.align as int,
    );
    let size = if offset + d.size > v.flen {
        v.flen - offset
    } else {
        d.size as int
    };
    (offset as u64, aligned(size, v.align as int) as usize)
}

/// What a read reads: within the file.
pub open spec fn read_place(v: FsxView, d: Draws) -> (u64, usize) {
    let offset = aligned(
        if v.file_size > 0 {
            d.offset as int % (v.file_size as int)
        } else {
            0
        },
        v.align as int,
    );
    let size = if offset + d.size > v.file_size {
        v.file_size - offset
    } else {
        d.size as int
    };
    (offset as u64, aligned(size, v.align as int) as usize)
}

/// One step: the exerciser after it, what it does to the file, and what it logs.
pub open spec fn step_of(v0: FsxView, op: Op, d: Draws) -> (
    FsxView,
    ActionView,
    Option<(LogLevel, Seq<char>)>,
) {
    let v = FsxView { steps: (v0.steps + 1) as u64, ..v0 };
    match op {
        Op::CloseOpen => plain_step(v, LogEntry::CloseOpen, ActionView::CloseOpen, " close/open"@),
        Op::Write | Op::MapWrite => {
            let (offset, size) = write_place(v, d);
            write_step(v, op, offset, size)
        },
        Op::Truncate => truncate_step(v, (d.length as u64 % v.flen) as u64),
        Op::Read | Op::MapRead => {
            let (offset, size) = read_place(v, d);
            read_step(v, op, offset, size)
        },
        Op::Fsync => plain_step(v, LogEntry::Fsync, ActionView::Fsync, " fsync"@),
        Op::Fdatasync => plain_step(v, LogEntry::Fdatasync, ActionView::Fdatasync, " fdatasync"@),
    }
}

/// Whether the ranges of an entry are within a file of the length `flen`.
pub open spec fn entry_in_file(entry: LogEntry, flen: u64) -> bool {
    match entry {
        LogEntry::Read(offset, size) => offset + size <= flen,
        LogEntry::MapRead(offset, size) => offset + size <= flen,
        LogEntry::Write(_, offset, size) => offset + size <= flen,
        LogEntry::MapWrite(_, offset, size) => offset + size <= flen,
        _ => true,
    }
}

/// What holds of every exerciser: the file is within its limit, the buffers cover it, and
/// the log has no more entries than there were steps.
pub open spec fn fsx_wf(v: FsxView) -> bool {
    &&& 0 < v.flen <= u32::MAX
    &&& v.flen <= usize::MAX
    &&& v.file_size <= v.flen
    &&& v.good.len() == v.flen
    &&& v.original.len() == v.flen
    &&& v.align >= 1
    &&& v.log.len() <= v.steps < u64::MAX
    &&& forall|i: int| 0 <= i < v.log.len() ==> entry_in_file(#[trigger] v.log[i], v.flen)
}

/// What an exerciser keeps of its file: the options, the model of the contents and the log.
pub struct Exerciser {
    pub align: usize,
    pub artifacts_dir: Option<String>,
    pub file_size: u64,
    pub flen: u64,
    pub fname: String,
    pub fwidth: usize,
    pub inject: Option<u64>,
    pub good_buf: Vec<u8>,
    pub monitor: Option<(u64, u64)>,
    pub nosizechecks: bool,
    pub numops: Option<u64>,
    pub oplog: OpLog,
    pub opsize: Opsize,
    pub seed: u64,
    pub simulatedopcount: u64,
    pub swidth: usize,
    pub stepwidth: usize,
    pub original_buf: Vec<u8>,
    pub steps: u64,
}

impl View for Exerciser {
    type V = FsxView;

    open spec fn view(&self) -> FsxView {
        FsxView {
            align: self.align,
            file_size: self.file_size,
            flen: self.flen,
            good: self.good_buf@,
            original: self.original_buf@,
            log: log_entries(self.oplog),
            steps: self.steps,
            simulated: self.simulatedopcount,
            inject: self.inject,
            monitor: self.monitor,
            fwidth: self.fwidth,
            swidth: self.swidth,
            stepwidth: self.stepwidth,
        }
    }
}

/// An exerciser before its first step: the file is empty, and the generator has given the
/// bytes that the writes take theirs from.
pub open spec fn first_view(cli: Cli, conf: Config, seed: u64) -> FsxView {
    FsxView {
        align: conf.opsize.alignment(),
        file_size: 0,
        flen: conf.file_limit(),
        good: Seq::new(conf.file_limit() as nat, |i: int| 0u8),
        original: bytes_drawn(seeded(seed), conf.file_limit() as nat).0,
        log: Seq::empty(),
        steps: 0,
        simulated: (cli.opnum - 1) as u64,
        inject: cli.inject,
        monitor: cli.monitor,
        fwidth: widest(conf.file_limit() as nat, true) as usize,
        swidth: widest(conf.opsize.max as nat, true) as usize,
        stepwidth: widest(
            match cli.numops {
                Some(n) => (n as usize) as nat,
                None => 999_999,
            },
            false,
        ) as usize,
    }
}

/// The words of the generator before the first step.
pub open spec fn first_words(conf: Config, seed: u64) -> Seq<u32> {
    bytes_drawn(seeded(seed), conf.file_limit() as nat).1
}

impl Exerciser {
    /// What holds of an exerciser at any time.
    pub open spec fn sound(&self) -> bool {
        &&& fsx_wf(self@)
        &&& self.opsize.min <= self.opsize.max
        &&& self.opsize.max + self.flen <= u64::MAX
        &&& last_name(self.fname@) is Some
        &&& log_capacity(self.oplog) == LOG_CAPACITY
    }

    /// Between two steps, each step has been put in the log.
    pub open spec fn wf(&self) -> bool {
        self.sound() && log_pushed(self.oplog) == self.steps
    }

    /// Within a step, it is counted and not yet in the log.
    pub open spec fn in_step(&self) -> bool {
        &&& self.sound()
        &&& self@.log.len() < self.steps <= usize::MAX
        &&& log_pushed(self.oplog) + 1 == self.steps
    }

    /// Whether the log can be read: it counts the entries put in, and the place of the oldest
    /// one that it holds is added to in an `isize`.
    pub open spec fn dumps(&self) -> bool {
        self.steps <= isize::MAX + 1 || self.steps > isize::MAX + LOG_CAPACITY
    }

    /// Whether `self` and `other` differ at most in what a step changes.
    pub open spec fn same_setup(&self, other: &Exerciser) -> bool {
        &&& self.artifacts_dir == other.artifacts_dir
        &&& self.fname == other.fname
        &&& self.nosizechecks == other.nosizechecks
        &&& self.numops == other.numops
        &&& self.opsize == other.opsize
        &&& self.seed == other.seed
    }

    /// An exerciser for an empty file, and the generator that drives it. The file has a
    /// name, `opnum` and the alignment are at least one, the configuration is valid, and
    /// memory can hold the file.
    pub fn new(cli: &Cli, conf: &Config, seed: u64) -> (r: (Self, XorShiftRng))
        requires
            cli@.fname matches Some(fname) && last_name(fname) is Some,
            cli.opnum >= 1,
            config_verdict(*conf) is Ok,
            conf.opsize.alignment() >= 1,
            conf.opsize.max + conf.file_limit() <= u64::MAX,
            conf.file_limit() <= isize::MAX,
        ensures
            r.0.wf(),
            words(r.1) == first_words(*conf, seed),
            r.0.fname@ == cli@.fname->0,
            opt_text(r.0.artifacts_dir) == cli@.artifacts_dir,
            r.0.nosizechecks == conf.nosizechecks,
            r.0.numops == cli.numops,
            r.0.opsize == conf.opsize,
            r.0.seed == seed,
            r.0@ == first_view(*cli, *conf, seed),
    {
        let fname = match &cli.fname {
            Some(fname) => fname.clone(),
            None => String::new(),
        };
        let flen: u64 = match conf.flen {
            Some(flen) => flen as u64,
            None => default_flen(),
        };
        let good_buf: Vec<u8> = vec![0u8; flen as usize];
        assert(good_buf@ =~= Seq::new(flen as nat, |i: int| 0u8));
        let mut rng = seed_rng(seed);
        let original_buf = draw_bytes(&mut rng, flen as usize);
        let fwidth: usize = field_width(flen as usize, true);
        let swidth: usize = field_width(conf.opsize.max, true);
        let most: usize = match cli.numops {
            Some(n) => n as usize,
            None => 999_999,
        };
        let stepwidth: usize = field_width(most, false);
        let align: usize = match conf.opsize.align {
            Some(align) => align,
            None => 1,
        };
        let ex = Exerciser {
            align,
            artifacts_dir: copy_opt(&cli.artifacts_dir),
            file_size: 0,
            flen,
            fname,
            fwidth,
            inject: cli.inject,
            good_buf,
            monitor: cli.monitor,
            nosizechecks: conf.nosizechecks,
            numops: cli.numops,
            oplog: OpLog::new(),
            opsize: conf.opsize,
            seed,
            simulatedopcount: cli.opnum - 1,
            swidth,
            stepwidth,
            original_buf,
            steps: 0,
        };
        (ex, rng)
    }

    /// Should this step be skipped as not part of the test plan?
    pub fn skip(&self) -> (r: bool)
        ensures
            r == skips(self@),
    {
        if self.steps <= self.simulatedopcount {
            return true;
        }
        match self.inject {
            Some(n) => n == self.steps,
            None => false,
        }
    }

    fn is_monitored(&self, offset: u64, size: usize) -> (r: bool)
        requires
            offset + size <= u64::MAX,
        ensures
            r == monitored(self@, offset, size as nat),
    {
        match self.monitor {
            Some((start, end)) => start < offset + size as u64 && offset <= end,
            None => false,
        }
    }

    /// Log level to use for I/O operations.
    pub fn loglevel(&self, offset: u64, offset2: Option<u64>, size: usize) -> (level: LogLevel)
        requires
            offset + size <= u64::MAX,
            offset2 matches Some(other) ==> other + size <= u64::MAX,
        ensures
            level == level_of(self@, offset, offset2, size as nat),
    {
        let second = match offset2 {
            Some(other) => self.is_monitored(other, size),
            None => false,
        };
        if self.is_monitored(offset, size) || second {
            LogLevel::Warn
        } else {
            LogLevel::Info
        }
    }

    fn step_head(&self) -> (s: String)
        ensures
            s@ == step_text(self@),
    {
        let mut s = String::new();
        push_dec_wide(&mut s, self.steps, self.stepwidth);
        assert(s@ =~= step_text(self@));
        s
    }

    fn line_of_io(&self, op: Op, offset: u64, size: usize) -> (line: (LogLevel, String))
        requires
            size >= 1,
            offset + size <= u64::MAX,
        ensures
            (line.0, line.1@) == io_line(self@, op, offset, size),
    {
        let level = self.loglevel(offset, None, size);
        let mut s = self.step_head();
        s.append(" ");
        push_padded_right(&mut s, op.name(), 8);
        s.append(" ");
        push_hex_0x(&mut s, offset, self.fwidth);
        s.append(" .. ");
        push_hex_0x(&mut s, offset + size as u64 - 1, self.fwidth);
        s.append(" (");
        push_hex_0x(&mut s, size as u64, self.swidth);
        s.append(" bytes)");
        (level, s)
    }

    /// Stamps `size` bytes from `offset` on with the number of the step.
    pub fn gendata(&mut self, offset: u64, size: usize)
        requires
            size >= 1,
            old(self).good_buf@.len() == old(self).original_buf@.len(),
            offset + size <= old(self).good_buf@.len(),
        ensures
            *final(self) == (Exerciser { good_buf: final(self).good_buf, ..*old(self) }),
            final(self).good_buf@ == Seq::new(
                old(self).good_buf@.len(),
                |i: int|
                    if offset <= i < offset + size {
                        stamp(old(self).steps, old(self).original_buf@, i)
                    } else {
                        old(self).good_buf@[i]
                    },
            ),
    {
        let total: usize = self.good_buf.len();
        let start: usize = offset as usize;
        let mark: u8 = (self.steps % 256) as u8;
        let mut done: usize = 0;
        while done < size
            invariant
                done <= size,
                total == self.good_buf@.len(),
                start == offset,
                start + size <= total,
                self.original_buf@.len() == total,
                mark == (self.steps % 256) as u8,
                *self == (Exerciser { good_buf: self.good_buf, ..*old(self) }),
                self.good_buf@.len() == old(self).good_buf@.len(),
                forall|i: int|
                    0 <= i < total ==> #[trigger] self.good_buf@[i] == if start <= i < start
                        + done {
                        stamp(self.steps, self.original_buf@, i)
                    } else {
                        old(self).good_buf@[i]
                    },
            decreases size - done,
        {
            let at: usize = start + done;
            let mut byte: u8 = mark;
            if at % 2 > 0 {
                byte = byte.wrapping_add(self.original_buf[at]);
            }
            assert(byte == stamp(self.steps, self.original_buf@, at as int));
            self.good_buf[at] = byte;
            done = done + 1;
        }
        assert(self.good_buf@ =~= Seq::new(
            old(self).good_buf@.len(),
            |i: int|
                if offset <= i < offset + size {
                    stamp(old(self).steps, old(self).original_buf@, i)
                } else {
                    old(self).good_buf@[i]
                },
        ));
    }

    fn zero_fill(&mut self, from: u64, to: u64)
        requires
            to <= old(self).good_buf@.len(),
        ensures
            *final(self) == (Exerciser { good_buf: final(self).good_buf, ..*old(self) }),
            final(self).good_buf@ == Seq::new(
                old(self).good_buf@.len(),
                |i: int|
                    if from <= i < to {
                        0u8
                    } else {
                        old(self).good_buf@[i]
                    },
            ),
    {
        let total: usize = self.good_buf.len();
        let mut at: u64 = from;
        while at < to
            invariant
                from <= at,
                at <= to || at == from,
                to <= total,
                total == self.good_buf@.len(),
                *self == (Exerciser { good_buf: self.good_buf, ..*old(self) }),
                self.good_buf@.len() == old(self).good_buf@.len(),
                forall|i: int|
                    0 <= i < total ==> #[trigger] self.good_buf@[i] == if from <= i < at {
                        0u8
                    } else {
                        old(self).good_buf@[i]
                    },
            decreases to - at,
        {
            self.good_buf[at as usize] = 0;
            at = at + 1;
        }
        assert(self.good_buf@ =~= Seq::new(
            old(self).good_buf@.len(),
            |i: int|
                if from <= i < to {
                    0u8
                } else {
                    old(self).good_buf@[i]
                },
        ));
    }

    fn bytes_at(&self, offset: u64, size: usize) -> (bytes: Vec<u8>)
        requires
            offset + size <= self.good_buf@.len(),
        ensures
            bytes@ == self.good_buf@.subrange(offset as int, offset + size),
    {
        let total: usize = self.good_buf.len();
        let start: usize = offset as usize;
        let mut bytes: Vec<u8> = Vec::new();
        let mut i: usize = 0;
        while i < size
            invariant
                i <= size,
                start == offset,
                total == self.good_buf@.len(),
                start + size <= total,
                bytes@ == self.good_buf@.subrange(start as int, start + i),
            decreases size - i,
        {
            bytes.push(self.good_buf[start + i]);
            i = i + 1;
            assert(bytes@ =~= self.good_buf@.subrange(start as int, start + i));
        }
        bytes
    }

    /// A write, or one through a mapping.
    pub fn write_like(&mut self, op: Op, offset: u64, size: usize) -> (step: Step)
        requires
            old(self).in_step(),
            op is Write || op is MapWrite,
            size > 0 ==> offset + size <= old(self).flen,
        ensures
            final(self).wf(),
            final(self).same_setup(old(self)),
            (final(self)@, step.action@, line_view(step.line)) == write_step(
                old(self)@,
                op,
                offset,
                size,
            ),
    {
        let ghost v = self@;
        if size == 0 {
            self.oplog.push(LogEntry::Skip(op));
            let text = self.step_head().concat(" skipping zero size write");
            assert(self@ =~= write_step(v, op, offset, size).0);
            return Step { action: Action::Nothing, line: Some((LogLevel::Debug, text)) };
        }
        self.gendata(offset, size);
        let cur_file_size: u64 = self.file_size;
        if self.file_size < offset + size as u64 {
            if self.file_size < offset {
                self.zero_fill(cur_file_size, offset);
            }
            self.file_size = offset + size as u64;
        }
        let entry = match op {
            Op::Write => LogEntry::Write(cur_file_size, offset, size),
            _ => LogEntry::MapWrite(cur_file_size, offset, size),
        };
        self.oplog.push(entry);
        proof {
            assert(self@.good =~= written(v, offset as int, size as int));
            assert(self@ =~= write_step(v, op, offset, size).0);
            lemma_log_grows(v, entry);
        }
        if self.skip() {
            return Step { action: Action::Nothing, line: None };
        }
        let line = self.line_of_io(op, offset, size);
        let bytes = self.bytes_at(offset, size);
        Step { action: Action::Write { offset, bytes }, line: Some(line) }
    }

    /// A read, or one through a mapping.
    pub fn read_like(&mut self, op: Op, offset: u64, size: usize) -> (step: Step)
        requires
            old(self).in_step(),
            op is Read || op is MapRead,
            offset + size <= u64::MAX,
        ensures
            final(self).wf(),
            final(self).same_setup(old(self)),
            (final(self)@, step.action@, line_view(step.line)) == read_step(
                old(self)@,
                op,
                offset,
                size,
            ),
    {
        let ghost v = self@;
        if size == 0 {
            self.oplog.push(LogEntry::Skip(op));
            let text = self.step_head().concat(" skipping zero size read");
            assert(self@ =~= read_step(v, op, offset, size).0);
            return Step { action: Action::Nothing, line: Some((LogLevel::Debug, text)) };
        }
        if size as u64 + offset > self.file_size {
            self.oplog.push(LogEntry::Skip(op));
            let text = self.step_head().concat(" skipping seek/read past EoF");
            assert(self@ =~= read_step(v, op, offset, size).0);
            return Step { action: Action::Nothing, line: Some((LogLevel::Debug, text)) };
        }
        let entry = match op {
            Op::Read => LogEntry::Read(offset, size),
            _ => LogEntry::MapRead(offset, size),
        };
        self.oplog.push(entry);
        proof {
            assert(self@ =~= read_step(v, op, offset, size).0);
            lemma_log_grows(v, entry);
        }
        if self.skip() {
            return Step { action: Action::Nothing, line: None };
        }
        let line = self.line_of_io(op, offset, size);
        Step { action: Action::Read { offset, size }, line: Some(line) }
    }

    pub fn truncate(&mut self, size: u64) -> (step: Step)
        requires
            old(self).in_step(),
            size <= old(self).flen,
        ensures
            final(self).wf(),
            final(self).same_setup(old(self)),
            (final(self)@, step.action@, line_view(step.line)) == truncate_step(old(self)@, size),
    {
        let ghost v = self@;
        let cur_file_size: u64 = self.file_size;
        if size > self.file_size {
            self.zero_fill(cur_file_size, size);
        }
        self.file_size = size;
        let entry = LogEntry::Truncate(cur_file_size, size);
        self.oplog.push(entry);
        proof {
            assert(self@.good =~= truncated(v, size));
            assert(self@ =~= truncate_step(v, size).0);
            lemma_log_grows(v, entry);
        }
        if self.skip() {
            return Step { action: Action::Nothing, line: None };
        }
        let level = match self.monitor {
            Some((_, end)) => if size <= end {
                LogLevel::Warn
            } else {
                LogLevel::Info
            },
            None => LogLevel::Info,
        };
        let mut s = self.step_head();
        s.append(" truncate ");
        push_hex_0x(&mut s, cur_file_size, self.fwidth);
        s.append(" => ");
        push_hex_0x(&mut s, size, self.fwidth);
        Step { action: Action::SetLen { len: size }, line: Some((level, s)) }
    }

    fn plain(&mut self, entry: LogEntry, action: Action, name: &str) -> (step: Step)
        requires
            old(self).in_step(),
            entry_in_file(entry, old(self).flen),
        ensures
            final(self).wf(),
            final(self).same_setup(old(self)),
            (final(self)@, step.action@, line_view(step.line)) == plain_step(
                old(self)@,
                entry,
                action@,
                name@,
            ),
    {
        let ghost v = self@;
        self.oplog.push(entry);
        proof {
            assert(self@ =~= plain_step(v, entry, action@, name@).0);
            lemma_log_grows(v, entry);
        }
        if self.skip() {
            return Step { action: Action::Nothing, line: None };
        }
        let s = self.step_head().concat(name);
        Step { action, line: Some((LogLevel::Info, s)) }
    }

    /// One step with the given operation and draws.
    pub fn step(&mut self, op: Op, draws: Draws) -> (step: Step)
        requires
            old(self).wf(),
            old(self).steps + 1 < u64::MAX,
            old(self).steps < usize::MAX,
            draws.size <= old(self).opsize.max,
        ensures
            final(self).wf(),
            final(self).same_setup(old(self)),
            (final(self)@, step.action@, line_view(step.line)) == step_of(old(self)@, op, draws),
    {
        self.steps = self.steps + 1;
        let ghost v = self@;
        assert(v =~= (FsxView { steps: (old(self)@.steps + 1) as u64, ..old(self)@ }));
        match op {
            Op::CloseOpen => self.plain(LogEntry::CloseOpen, Action::CloseOpen, " close/open"),
            Op::Write | Op::MapWrite => {
                let range: u64 = if self.file_size + 1 < self.flen {
                    self.file_size + 1
                } else {
                    self.flen
                };
                let align: u64 = self.align as u64;
                let mut offset: u64 = if self.file_size == 0 {
                    0
                } else {
                    draws.offset as u64 % range
                };
                proof {
                    lemma_aligned(offset as int, align as int);
                }
                offset = offset - offset % align;
                let mut size: usize = draws.size;
                if offset + size as u64 > self.flen {
                    size = (self.flen - offset) as usize;
                }
                proof {
                    lemma_aligned(size as int, align as int);
                }
                size = size - size % self.align;
                self.write_like(op, offset, size)
            },
            Op::Truncate => {
                let fsize: u64 = draws.length as u64 % self.flen;
                self.truncate(fsize)
            },
            Op::Read | Op::MapRead => {
                let align: u64 = self.align as u64;
                let mut offset: u64 = if self.file_size > 0 {
                    draws.offset as u64 % self.file_size
                } else {
                    0
                };
                proof {
                    lemma_aligned(offset as int, align as int);
                }
                offset = offset - offset % align;
                let mut size: usize = draws.size;
                if offset + size as u64 > self.file_size {
                    size = (self.file_size - offset) as usize;
                }
                proof {
                    lemma_aligned(size as int, align as int);
                }
                size = size - size % self.align;
                self.read_like(op, offset, size)
            },
            Op::Fsync => self.plain(LogEntry::Fsync, Action::Fsync, " fsync"),
            Op::Fdatasync => self.plain(LogEntry::Fdatasync, Action::Fdatasync, " fdatasync"),
        }
    }

    /// Whether all operations were done.
    pub fn finished(&self) -> (r: bool)
        ensures
            r == (self.numops matches Some(n) && n <= self.steps),
    {
        match self.numops {
            Some(n) => n <= self.steps,
            None => false,
        }
    }

    /// The bytes to write before the first step that is not simulated: the whole file.
    pub fn file_image(&self) -> (r: Option<Vec<u8>>)
        requires
            self.wf(),
        ensures
            r is Some <==> self.simulatedopcount > 0 && self.steps == self.simulatedopcount,
            r matches Some(bytes) ==> bytes@ == file_contents(self@),
    {
        if self.simulatedopcount > 0 && self.steps == self.simulatedopcount {
            let bytes = self.bytes_at(0, self.file_size as usize);
            assert(bytes@ =~= file_contents(self@));
            Some(bytes)
        } else {
            None
        }
    }
}

proof fn lemma_aligned(n: int, align: int)
    requires
        n >= 0,
        align >= 1,
    ensures
        0 <= n % align <= n,
        0 <= aligned(n, align) <= n,
{
    vstd::arithmetic::div_mod::lemma_mod_bound(n, align);
    if n < align {
        vstd::arithmetic::div_mod::lemma_small_mod(n as nat, align as nat);
    }
}

pub(crate) proof fn lemma_log_grows(v: FsxView, entry: LogEntry)
    requires
        fsx_wf(v),
        entry_in_file(entry, v.flen),
        v.log.len() < v.steps,
    ensures
        entry_added(v.log, entry).len() <= v.steps,
        forall|i: int|
            0 <= i < entry_added(v.log, entry).len() ==> entry_in_file(
                #[trigger] entry_added(v.log, entry)[i],
                v.flen,
            ),
{
    let after = entry_added(v.log, entry);
    assert forall|i: int| 0 <= i < after.len() implies entry_in_file(#[trigger] after[i], v.flen) by {
        if i < after.len() - 1 {
            if v.log.len() < LOG_CAPACITY {
                assert(after[i] == v.log[i]);
            } else {
                assert(after[i] == v.log[i + 1]);
            }
        }
    }
}

} // verus!
