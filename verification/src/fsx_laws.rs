//! What holds of every step of an exerciser.

use rand_xorshift::XorShiftRng;
use vstd::prelude::*;

use crate::cli::Cli;
use crate::fsx::{
    aligned, file_contents, first_view, first_words, fsx_wf, lemma_log_grows, read_place, skips,
    stamp, step_draws, step_of, write_place, written, ActionView, Config, Draws, Exerciser, FsxView,
    Opsize,
};
use crate::fsx_report::buffer_verdict;
use crate::oplog::{LogEntry, Op};
use crate::xorshift::words;

verus! {

/// What a file holds once `bytes` were written at `offset`: zeros fill what lies between
/// its end and the bytes.
pub open spec fn spliced(contents: Seq<u8>, offset: int, bytes: Seq<u8>) -> Seq<u8> {
    let len = if contents.len() > offset + bytes.len() {
        contents.len() as int
    } else {
        offset + bytes.len()
    };
    Seq::new(
        len as nat,
        |i: int|
            if offset <= i < offset + bytes.len() {
                bytes[i - offset]
            } else if i < contents.len() {
                contents[i]
            } else {
                0u8
            },
    )
}

/// What a file holds once it was cut or grown to `len`: zeros where it grew.
pub open spec fn resized(contents: Seq<u8>, len: nat) -> Seq<u8> {
    Seq::new(
        len,
        |i: int|
            if i < contents.len() {
                contents[i]
            } else {
                0u8
            },
    )
}

/// What a file holds after an action.
pub open spec fn acted(contents: Seq<u8>, action: ActionView) -> Seq<u8> {
    match action {
        ActionView::Write { offset, bytes } => spliced(contents, offset as int, bytes),
        ActionView::SetLen { len } => resized(contents, len as nat),
        _ => contents,
    }
}

/// The exerciser at the point where a step has been counted.
pub open spec fn counted(v: FsxView) -> FsxView {
    FsxView { steps: (v.steps + 1) as u64, ..v }
}

proof fn lemma_places(v: FsxView, d: Draws)
    requires
        fsx_wf(v),
        d.size + v.flen <= u64::MAX,
    ensures
        write_place(v, d).0 + write_place(v, d).1 <= v.flen,
        read_place(v, d).0 + read_place(v, d).1 <= v.file_size,
{
    let align = v.align as int;
    let range = if v.file_size + 1 < v.flen {
        v.file_size + 1
    } else {
        v.flen as int
    };
    let o1 = if v.file_size == 0 {
        0
    } else {
        d.offset as int % range
    };
    lemma_mod(o1, align);
    if v.file_size > 0 {
        lemma_mod(d.offset as int, range);
    }
    let w = aligned(o1, align);
    let s1 = if w + d.size > v.flen {
        v.flen - w
    } else {
        d.size as int
    };
    lemma_mod(s1, align);
    let o2 = if v.file_size > 0 {
        d.offset as int % (v.file_size as int)
    } else {
        0
    };
    lemma_mod(o2, align);
    if v.file_size > 0 {
        lemma_mod(d.offset as int, v.file_size as int);
    }
    let r = aligned(o2, align);
    let s2 = if r + d.size > v.file_size {
        v.file_size - r
    } else {
        d.size as int
    };
    lemma_mod(s2, align);
}

proof fn lemma_mod(n: int, m: int)
    requires
        n >= 0,
        m >= 1,
    ensures
        0 <= n % m < m,
        n % m <= n,
{
    vstd::arithmetic::div_mod::lemma_mod_bound(n, m);
    if n < m {
        vstd::arithmetic::div_mod::lemma_small_mod(n as nat, m as nat);
    }
}

/// The model follows the file: a step that is not skipped does to the file what it does to
/// the model, so that a file that held what it ought to before holds it after.
pub proof fn law_model_follows_file(v: FsxView, op: Op, d: Draws)
    requires
        fsx_wf(v),
        v.steps + 1 < u64::MAX,
        d.size + v.flen <= u64::MAX,
        !skips(counted(v)),
    ensures
        acted(file_contents(v), step_of(v, op, d).1) == file_contents(step_of(v, op, d).0),
{
    let c = counted(v);
    lemma_places(c, d);
    let (after, action, _) = step_of(v, op, d);
    assert(acted(file_contents(v), action) =~= file_contents(after));
}

/// A step that is skipped leaves the file alone.
pub proof fn law_skipped_steps_do_nothing(v: FsxView, op: Op, d: Draws)
    requires
        skips(counted(v)),
    ensures
        step_of(v, op, d).1 is Nothing,
{
}

/// Only writes and truncations change what the file ought to hold.
pub proof fn law_reads_change_nothing(v: FsxView, op: Op, d: Draws)
    requires
        op !is Write,
        op !is MapWrite,
        op !is Truncate,
    ensures
        file_contents(step_of(v, op, d).0) == file_contents(v),
{
}

/// A write leaves its step in every byte: plain at even places, added to the original
/// byte at odd ones.
pub proof fn law_writes_leave_their_step(v: FsxView, op: Op, d: Draws, i: int)
    requires
        fsx_wf(v),
        v.steps + 1 < u64::MAX,
        d.size + v.flen <= u64::MAX,
        op is Write || op is MapWrite,
        ({
            let (offset, size) = write_place(counted(v), d);
            offset <= i < offset + size
        }),
    ensures
        file_contents(step_of(v, op, d).0)[i] == stamp((v.steps + 1) as u64, v.original, i),
{
    let c = counted(v);
    lemma_places(c, d);
    let (offset, size) = write_place(c, d);
    assert(written(c, offset as int, size as int)[i] == stamp(c.steps, c.original, i));
}

/// Operations are aligned: they begin at and cover multiples of the alignment.
pub proof fn law_operations_are_aligned(v: FsxView, d: Draws)
    requires
        fsx_wf(v),
        d.size + v.flen <= u64::MAX,
    ensures
        write_place(v, d).0 as int % v.align as int == 0,
        write_place(v, d).1 as int % v.align as int == 0,
        read_place(v, d).0 as int % v.align as int == 0,
        read_place(v, d).1 as int % v.align as int == 0,
{
    lemma_places(v, d);
    let align = v.align as int;
    let range = if v.file_size + 1 < v.flen {
        v.file_size + 1
    } else {
        v.flen as int
    };
    let o1 = if v.file_size == 0 {
        0
    } else {
        d.offset as int % range
    };
    if v.file_size > 0 {
        lemma_mod(d.offset as int, range);
        lemma_mod(d.offset as int, v.file_size as int);
    }
    lemma_aligned_multiple(o1, align);
    let w = aligned(o1, align);
    lemma_aligned_multiple(
        if w + d.size > v.flen {
            v.flen - w
        } else {
            d.size as int
        },
        align,
    );
    let o2 = if v.file_size > 0 {
        d.offset as int % (v.file_size as int)
    } else {
        0
    };
    lemma_aligned_multiple(o2, align);
    let r = aligned(o2, align);
    lemma_aligned_multiple(
        if r + d.size > v.file_size {
            v.file_size - r
        } else {
            d.size as int
        },
        align,
    );
}

proof fn lemma_aligned_multiple(n: int, align: int)
    requires
        n >= 0,
        align >= 1,
    ensures
        aligned(n, align) % align == 0,
        0 <= aligned(n, align) <= n,
{
    lemma_mod(n, align);
    vstd::arithmetic::div_mod::lemma_fundamental_div_mod(n, align);
    assert(aligned(n, align) == align * (n / align));
    vstd::arithmetic::div_mod::lemma_mod_multiples_basic(n / align, align);
    assert(align * (n / align) == (n / align) * align) by (nonlinear_arith);
}

/// A read passes its check if and only if it gave back what the file ought to hold.
pub proof fn law_right_reads_pass(ex: &Exerciser, buf: Seq<u8>, offset: int)
    requires
        ex.wf(),
        0 <= offset,
        offset + buf.len() <= ex.file_size,
    ensures
        buffer_verdict(ex, buf, offset) is Ok <==> buf == file_contents(ex@).subrange(
            offset,
            offset + buf.len(),
        ),
{
    assert(file_contents(ex@).subrange(offset, offset + buf.len()) =~= ex@.good.subrange(
        offset,
        offset + buf.len(),
    ));
}

/// What a step enters in the log.
spec fn entry_of(v: FsxView, op: Op, d: Draws) -> LogEntry {
    match op {
        Op::CloseOpen => LogEntry::CloseOpen,
        Op::Write | Op::MapWrite => {
            let (offset, size) = write_place(v, d);
            if size == 0 {
                LogEntry::Skip(op)
            } else if op is Write {
                LogEntry::Write(v.file_size, offset, size)
            } else {
                LogEntry::MapWrite(v.file_size, offset, size)
            }
        },
        Op::Truncate => LogEntry::Truncate(v.file_size, (d.length as u64 % v.flen) as u64),
        Op::Read | Op::MapRead => {
            let (offset, size) = read_place(v, d);
            if size == 0 || size + offset > v.file_size {
                LogEntry::Skip(op)
            } else if op is Read {
                LogEntry::Read(offset, size)
            } else {
                LogEntry::MapRead(offset, size)
            }
        },
        Op::Fsync => LogEntry::Fsync,
        Op::Fdatasync => LogEntry::Fdatasync,
    }
}

/// Every step keeps the file within its limit, the buffers over it, and the log in bounds.
pub proof fn law_steps_keep_the_bounds(v: FsxView, op: Op, d: Draws)
    requires
        fsx_wf(v),
        v.steps + 1 < u64::MAX,
        d.size + v.flen <= u64::MAX,
    ensures
        fsx_wf(step_of(v, op, d).0),
        step_of(v, op, d).0.steps == v.steps + 1,
        step_of(v, op, d).0.flen == v.flen,
        step_of(v, op, d).0.simulated == v.simulated,
        step_of(v, op, d).0.inject == v.inject,
{
    let c = counted(v);
    lemma_places(c, d);
    lemma_mod(d.length as int, v.flen as int);
    lemma_log_grows(c, entry_of(c, op, d));
}

/// An exerciser after some steps, each with its draws, and what is in a file to which every
/// one of them was done.
pub open spec fn ran(v: FsxView, contents: Seq<u8>, steps: Seq<(Op, Draws)>) -> (FsxView, Seq<u8>)
    decreases steps.len(),
{
    if steps.len() == 0 {
        (v, contents)
    } else {
        let (before, held) = ran(v, contents, steps.drop_last());
        let (after, action, _) = step_of(before, steps.last().0, steps.last().1);
        (after, acted(held, action))
    }
}

/// Over a whole run a file to which every step was done holds what the exerciser expects of
/// it, so that every check of its bytes and of its size passes, as long as no step of the run
/// is a simulated one or the one that an error is injected into.
pub proof fn law_sound_files_stay_sound(v: FsxView, contents: Seq<u8>, steps: Seq<(Op, Draws)>)
    requires
        fsx_wf(v),
        contents == file_contents(v),
        v.simulated <= v.steps,
        v.steps + steps.len() < u64::MAX,
        v.inject matches Some(n) ==> n <= v.steps || v.steps + steps.len() < n,
        forall|i: int|
            0 <= i < steps.len() ==> (#[trigger] steps[i]).1.size + v.flen <= u64::MAX,
    ensures
        fsx_wf(ran(v, contents, steps).0),
        ran(v, contents, steps).0.steps == v.steps + steps.len(),
        ran(v, contents, steps).0.flen == v.flen,
        ran(v, contents, steps).0.simulated == v.simulated,
        ran(v, contents, steps).0.inject == v.inject,
        ran(v, contents, steps).1 == file_contents(ran(v, contents, steps).0),
    decreases steps.len(),
{
    if steps.len() > 0 {
        let earlier = steps.drop_last();
        assert forall|i: int| 0 <= i < earlier.len() implies (#[trigger] earlier[i]).1.size
            + v.flen <= u64::MAX by {
            assert(earlier[i] == steps[i]);
        }
        law_sound_files_stay_sound(v, contents, earlier);
        let before = ran(v, contents, earlier).0;
        let (op, d) = steps.last();
        assert(steps[steps.len() - 1].1.size + v.flen <= u64::MAX);
        law_steps_keep_the_bounds(before, op, d);
        law_model_follows_file(before, op, d);
    }
}

/// The steps that a generator gives, with its words after them, where `choose_op` is how the
/// next operation follows from the words that it holds.
pub open spec fn steps_drawn(
    words: Seq<u32>,
    opsize: Opsize,
    choose_op: spec_fn(Seq<u32>) -> (Op, Seq<u32>),
    n: nat,
) -> (Seq<(Op, Draws)>, Seq<u32>)
    decreases n,
{
    if n == 0 {
        (Seq::empty(), words)
    } else {
        let (steps, before) = steps_drawn(words, opsize, choose_op, (n - 1) as nat);
        let (op, chosen) = choose_op(before);
        let (draws, after) = step_draws(chosen, opsize, op);
        (steps.push((op, draws)), after)
    }
}

/// Whether two exercisers differ at most in what they log of their steps.
pub open spec fn same_but_lines(v: FsxView, w: FsxView) -> bool {
    w == FsxView {
        monitor: w.monitor,
        fwidth: w.fwidth,
        swidth: w.swidth,
        stepwidth: w.stepwidth,
        ..v
    }
}

/// What is done to the file, step by step.
pub open spec fn actions(v: FsxView, steps: Seq<(Op, Draws)>) -> Seq<ActionView>
    decreases steps.len(),
{
    if steps.len() == 0 {
        Seq::empty()
    } else {
        let before = ran(v, Seq::empty(), steps.drop_last()).0;
        actions(v, steps.drop_last()).push(
            step_of(before, steps.last().0, steps.last().1).1,
        )
    }
}

proof fn lemma_step_without_lines(v: FsxView, w: FsxView, op: Op, d: Draws)
    requires
        same_but_lines(v, w),
    ensures
        step_of(v, op, d).1 == step_of(w, op, d).1,
        same_but_lines(step_of(v, op, d).0, step_of(w, op, d).0),
{
}

proof fn lemma_ran_without_contents(v: FsxView, a: Seq<u8>, b: Seq<u8>, steps: Seq<(Op, Draws)>)
    ensures
        ran(v, a, steps).0 == ran(v, b, steps).0,
    decreases steps.len(),
{
    if steps.len() > 0 {
        lemma_ran_without_contents(v, a, b, steps.drop_last());
    }
}

proof fn lemma_ran_without_lines(
    v: FsxView,
    w: FsxView,
    contents: Seq<u8>,
    steps: Seq<(Op, Draws)>,
)
    requires
        same_but_lines(v, w),
    ensures
        same_but_lines(ran(v, contents, steps).0, ran(w, contents, steps).0),
        ran(v, contents, steps).1 == ran(w, contents, steps).1,
        actions(v, steps) == actions(w, steps),
    decreases steps.len(),
{
    if steps.len() > 0 {
        let earlier = steps.drop_last();
        lemma_ran_without_lines(v, w, contents, earlier);
        lemma_ran_without_contents(v, contents, Seq::empty(), earlier);
        lemma_ran_without_contents(w, contents, Seq::empty(), earlier);
        lemma_step_without_lines(
            ran(v, contents, earlier).0,
            ran(w, contents, earlier).0,
            steps.last().0,
            steps.last().1,
        );
    }
}

/// Whether two runs are set to the same steps: the same seed, file limit, operation sizes,
/// number of the first operation and error to inject. Where the file is, what is logged and
/// when the run stops may differ.
pub open spec fn same_plan(a: (Cli, Config, u64), b: (Cli, Config, u64)) -> bool {
    &&& a.0.opnum == b.0.opnum
    &&& a.0.inject == b.0.inject
    &&& a.1.file_limit() == b.1.file_limit()
    &&& a.1.opsize == b.1.opsize
    &&& a.2 == b.2
}

/// Whether `r` is an exerciser before its first step, with its generator.
pub open spec fn begun(r: (Exerciser, XorShiftRng), set: (Cli, Config, u64)) -> bool {
    &&& r.0@ == first_view(set.0, set.1, set.2)
    &&& r.0.opsize == set.1.opsize
    &&& words(r.1) == first_words(set.1, set.2)
}

/// Runs are reproducible: two exercisers that begin with the same seed and settings draw the
/// same steps and do the same to files that held the same, whatever the files are called and
/// whatever is logged. Where the same is to be logged, they are in the same state.
pub proof fn law_runs_are_reproducible(
    set_a: (Cli, Config, u64),
    set_b: (Cli, Config, u64),
    a: (Exerciser, XorShiftRng),
    b: (Exerciser, XorShiftRng),
    choose_op: spec_fn(Seq<u32>) -> (Op, Seq<u32>),
    contents: Seq<u8>,
    n: nat,
)
    requires
        same_plan(set_a, set_b),
        begun(a, set_a),
        begun(b, set_b),
    ensures
        ({
            let first = steps_drawn(words(a.1), a.0.opsize, choose_op, n);
            let second = steps_drawn(words(b.1), b.0.opsize, choose_op, n);
            &&& first == second
            &&& first.0.len() == n
            &&& actions(a.0@, first.0) == actions(b.0@, second.0)
            &&& ran(a.0@, contents, first.0).1 == ran(b.0@, contents, second.0).1
            &&& set_a.0.monitor == set_b.0.monitor && set_a.0.numops == set_b.0.numops ==> ran(
                a.0@,
                contents,
                first.0,
            ) == ran(b.0@, contents, second.0)
        }),
{
    let first = steps_drawn(words(a.1), a.0.opsize, choose_op, n);
    lemma_as_many_steps(words(a.1), a.0.opsize, choose_op, n);
    lemma_ran_without_lines(a.0@, b.0@, contents, first.0);
}

proof fn lemma_as_many_steps(
    words: Seq<u32>,
    opsize: Opsize,
    choose_op: spec_fn(Seq<u32>) -> (Op, Seq<u32>),
    n: nat,
)
    ensures
        steps_drawn(words, opsize, choose_op, n).0.len() == n,
    decreases n,
{
    if n > 0 {
        lemma_as_many_steps(words, opsize, choose_op, (n - 1) as nat);
    }
}

} // verus!
