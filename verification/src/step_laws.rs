//! Where the steps of an exerciser act, and what they do there.

use vstd::prelude::*;

use crate::cli::{monitor_of, Cli, CliView};
use crate::fsx::{
    aligned, config_verdict, file_contents, first_view, first_words, fsx_wf, offset_text, step_draws, step_of,
    ActionView, Config, Draws, Exerciser, FsxView, LogLevel, Opsize,
};
use crate::fsx_report::{
    buffer_verdict, byte_text, can_tell, dump_line, dump_lines, first_wrong, good_place,
    growth_text, miscompare_lines, report_lines, step_of_entry, telling_place, wrong_bytes,
};
use crate::fsx_run::{run_verdict, thread_cli, WorkerEnd};
use crate::http_laws::{
    ends_in, has_char, law_decimal_numbers_are_read, lemma_shows_one, shows, starts_in,
};
use crate::oplog::{LogEntry, Op};
use crate::paths::{joined_path, parent_of, path_parts};
use crate::text::{dec, pad_left};
use crate::text_laws::{
    law_name_of_a_file, law_one_piece, law_parents_lack_the_last_component, law_pieces_of_both,
};
use crate::xorshift::{bytes_drawn, number_drawn, seeded, word_drawn};

verus! {

/// Whether a step acts on the file: it is not one of the simulated first ones, nor the one that
/// is left out to inject an error.
pub open spec fn acts(v: FsxView) -> bool {
    v.simulated < v.steps + 1 && (v.inject matches Some(n) ==> n != v.steps + 1)
}

/// The smaller of two numbers.
pub open spec fn least(a: int, b: int) -> int {
    if a <= b {
        a
    } else {
        b
    }
}

/// Whether `n` is the largest multiple of `align` that is not over `top`.
pub open spec fn largest_multiple(n: int, align: int, top: int) -> bool {
    0 <= n <= top < n + align && n % align == 0
}

proof fn lemma_remainder(p: int, k: int, m: int)
    requires
        0 <= p < m,
        k >= 0,
    ensures
        (p + k * m) % m == p,
{
    vstd::arithmetic::div_mod::lemma_fundamental_div_mod_converse(p + k * m, m, k, p);
}

proof fn lemma_rounded(n: int, align: int)
    requires
        n >= 0,
        align >= 1,
    ensures
        largest_multiple(aligned(n, align), align, n),
{
    vstd::arithmetic::div_mod::lemma_mod_bound(n, align);
    vstd::arithmetic::div_mod::lemma_fundamental_div_mod(n, align);
    assert(aligned(n, align) == align * (n / align));
    vstd::arithmetic::div_mod::lemma_mod_multiples_basic(n / align, align);
    assert(align * (n / align) == (n / align) * align) by (nonlinear_arith);
    assert(align * (n / align) >= 0) by (nonlinear_arith)
        requires
            align >= 1,
            n >= 0,
            n / align >= 0,
    ;
}

/// A read begins at the drawn place, counted round in the file: each of the draws that lie
/// whole lengths of the file apart begins at the same place, and every place of the file is
/// begun at. It takes as many bytes as were drawn, up to the end of the file.
pub proof fn law_reads_begin_where_drawn(v: FsxView, op: Op, d: Draws, place: int, rounds: int)
    requires
        fsx_wf(v),
        v.steps + 1 < u64::MAX,
        d.size + v.flen <= u64::MAX,
        op is Read || op is MapRead,
        acts(v),
        v.align == 1,
        0 <= place < v.file_size,
        0 <= rounds,
        d.offset == place + rounds * v.file_size,
        d.size > 0,
    ensures
        step_of(v, op, d).1 == (ActionView::Read {
            offset: place as u64,
            size: least(d.size as int, v.file_size - place) as usize,
        }),
{
    lemma_remainder(place, rounds, v.file_size as int);
    assert(d.offset as int % v.file_size as int == place);
    lemma_rounded(place, 1);
    let size = least(d.size as int, v.file_size - place);
    lemma_rounded(size, 1);
}

/// With an alignment, a read begins at the multiple of it at or below the drawn place and takes
/// the largest multiple of it that was drawn and that the file has there; none, where that is
/// nothing.
pub proof fn law_aligned_reads_begin_below(v: FsxView, op: Op, d: Draws, place: int, rounds: int)
    requires
        fsx_wf(v),
        v.steps + 1 < u64::MAX,
        d.size + v.flen <= u64::MAX,
        op is Read || op is MapRead,
        acts(v),
        0 <= place < v.file_size,
        0 <= rounds,
        d.offset == place + rounds * v.file_size,
    ensures
        match step_of(v, op, d).1 {
            ActionView::Read { offset, size } => {
                &&& largest_multiple(offset as int, v.align as int, place)
                &&& size > 0
                &&& largest_multiple(
                    size as int,
                    v.align as int,
                    least(d.size as int, v.file_size - offset),
                )
            },
            ActionView::Nothing => exists|offset: int|
                #[trigger] largest_multiple(offset, v.align as int, place) && least(
                    d.size as int,
                    v.file_size - offset,
                ) < v.align,
            _ => false,
        },
{
    lemma_remainder(place, rounds, v.file_size as int);
    assert(d.offset as int % v.file_size as int == place);
    lemma_rounded(place, v.align as int);
    let offset = aligned(place, v.align as int);
    let size = least(d.size as int, v.file_size - offset);
    lemma_rounded(size, v.align as int);
    assert(largest_multiple(offset, v.align as int, place));
}

/// From an empty file nothing is read.
pub proof fn law_empty_files_are_not_read(v: FsxView, op: Op, d: Draws)
    requires
        fsx_wf(v),
        d.size + v.flen <= u64::MAX,
        op is Read || op is MapRead,
        v.file_size == 0,
    ensures
        step_of(v, op, d).1 is Nothing,
        v.steps + 1 < u64::MAX ==> step_of(v, op, d).0.log.last() == LogEntry::Skip(op),
{
    lemma_rounded(0, v.align as int);
}

/// The number of places at which a write may begin: those in the file and the one right behind
/// it, as far as the limit allows.
pub open spec fn write_starts(v: FsxView) -> int {
    if v.file_size == 0 {
        1
    } else {
        least(v.file_size + 1, v.flen as int)
    }
}

proof fn lemma_write_place(v: FsxView, d: Draws, place: int, rounds: int)
    requires
        fsx_wf(v),
        d.size + v.flen <= u64::MAX,
        0 <= place < write_starts(v),
        0 <= rounds,
        d.offset == place + rounds * write_starts(v),
    ensures
        ({
            let (offset, size) = crate::fsx::write_place(v, d);
            &&& largest_multiple(offset as int, v.align as int, place)
            &&& largest_multiple(
                size as int,
                v.align as int,
                least(d.size as int, v.flen - offset),
            )
        }),
{
    lemma_remainder(place, rounds, write_starts(v));
    lemma_rounded(place, v.align as int);
    let offset = aligned(place, v.align as int);
    lemma_rounded(least(d.size as int, v.flen - offset), v.align as int);
}

/// A write begins at the drawn place, counted round among the places of the file and the one
/// behind it, or at the multiple of the alignment below. It writes as many bytes as were drawn,
/// up to the limit of the file, or the multiple of the alignment below. Each byte holds the
/// number of the step, at odd places with the original byte added.
pub proof fn law_writes_begin_where_drawn(
    v: FsxView,
    op: Op,
    d: Draws,
    place: int,
    rounds: int,
    i: int,
)
    requires
        fsx_wf(v),
        v.steps + 1 < u64::MAX,
        d.size + v.flen <= u64::MAX,
        op is Write || op is MapWrite,
        acts(v),
        0 <= place < write_starts(v),
        0 <= rounds,
        d.offset == place + rounds * write_starts(v),
    ensures
        match step_of(v, op, d).1 {
            ActionView::Write { offset, bytes } => {
                &&& largest_multiple(offset as int, v.align as int, place)
                &&& bytes.len() > 0
                &&& largest_multiple(
                    bytes.len() as int,
                    v.align as int,
                    least(d.size as int, v.flen - offset),
                )
                &&& 0 <= i < bytes.len() && (offset + i) % 2 == 0 ==> bytes[i] == (v.steps + 1)
                    % 256
                &&& 0 <= i < bytes.len() && (offset + i) % 2 == 1 ==> bytes[i] == (v.steps + 1
                    + v.original[offset + i]) % 256
            },
            ActionView::Nothing => exists|offset: int|
                #[trigger] largest_multiple(offset, v.align as int, place) && least(
                    d.size as int,
                    v.flen - offset,
                ) < v.align,
            _ => false,
        },
{
    let c = FsxView { steps: (v.steps + 1) as u64, ..v };
    lemma_write_place(c, d, place, rounds);
    let (offset, size) = crate::fsx::write_place(c, d);
    assert(largest_multiple(offset as int, v.align as int, place));
    if size > 0 {
        let bytes = step_of(v, op, d).1->Write_bytes;
        if 0 <= i < bytes.len() {
            let s = v.steps as int + 1;
            let o = v.original[offset + i] as int;
            assert(bytes[i] == crate::fsx::stamp(c.steps, v.original, offset + i));
            vstd::arithmetic::div_mod::lemma_add_mod_noop(s % 256, o, 256);
            vstd::arithmetic::div_mod::lemma_add_mod_noop(s, o, 256);
        }
    }
}

/// A truncation sets the drawn length, counted round below the limit of the file.
pub proof fn law_truncations_set_the_drawn_length(v: FsxView, d: Draws, len: int, rounds: int)
    requires
        fsx_wf(v),
        v.steps + 1 < u64::MAX,
        0 <= len < v.flen,
        0 <= rounds,
        d.length == len + rounds * v.flen,
    ensures
        step_of(v, Op::Truncate, d).0.file_size == len,
        acts(v) ==> step_of(v, Op::Truncate, d).1 == (ActionView::SetLen { len: len as u64 }),
{
    lemma_remainder(len, rounds, v.flen as int);
}

/// The other operations do what they are called, and leave the model as it was.
pub proof fn law_plain_operations_do_as_called(v: FsxView, op: Op, d: Draws)
    requires
        acts(v),
        v.steps < u64::MAX,
        op is CloseOpen || op is Fsync || op is Fdatasync,
    ensures
        match op {
            Op::CloseOpen => step_of(v, op, d).1 is CloseOpen,
            Op::Fsync => step_of(v, op, d).1 is Fsync,
            _ => step_of(v, op, d).1 is Fdatasync,
        },
        step_of(v, op, d).0.good == v.good,
        step_of(v, op, d).0.file_size == v.file_size,
{
}

/// A step that does not act leaves the file alone and is modelled like one that does.
pub proof fn law_skipped_steps_are_modelled(v: FsxView, w: FsxView, op: Op, d: Draws)
    requires
        v.steps < u64::MAX,
        !acts(v),
        w == (FsxView { simulated: w.simulated, inject: w.inject, ..v }),
    ensures
        step_of(v, op, d).1 is Nothing,
        step_of(v, op, d).0.good == step_of(w, op, d).0.good,
        step_of(v, op, d).0.file_size == step_of(w, op, d).0.file_size,
        step_of(v, op, d).0.log == step_of(w, op, d).0.log,
        step_of(v, op, d).0.steps == v.steps + 1,
{
}

/// A run acts from the operation with the number `opnum` on, and not on the one into which an
/// error is injected. Its file is empty at first, and its steps are counted from one.
pub proof fn law_runs_act_from_their_first_operation(cli: Cli, conf: Config, seed: u64, v: FsxView)
    requires
        cli.opnum >= 1,
        v.simulated == first_view(cli, conf, seed).simulated,
        v.inject == first_view(cli, conf, seed).inject,
        v.steps < u64::MAX,
    ensures
        acts(v) <==> v.steps + 1 >= cli.opnum && cli.inject != Some((v.steps + 1) as u64),
        first_view(cli, conf, seed).steps == 0,
        first_view(cli, conf, seed).file_size == 0,
        first_view(cli, conf, seed).log.len() == 0,
        file_contents(first_view(cli, conf, seed)).len() == 0,
        first_view(cli, conf, seed).flen == (if conf.flen is Some {
            conf.flen->0 as int
        } else {
            262144
        }),
        first_view(cli, conf, seed).align == (if conf.opsize.align is Some {
            conf.opsize.align->0 as int
        } else {
            1
        }),
        first_view(cli, conf, seed).monitor == cli.monitor,
{
}

/// A step enters in the log what it did, as the last entry; at most one entry leaves.
pub proof fn law_steps_are_logged(v: FsxView, op: Op, d: Draws, i: int)
    requires
        fsx_wf(v),
        v.steps + 1 < u64::MAX,
    ensures
        ({
            let (after, action, _) = step_of(v, op, d);
            let entry = after.log.last();
            &&& after.log.len() >= 1
            &&& match action {
                ActionView::Read { offset, size } => entry == (if op is Read {
                    LogEntry::Read(offset, size)
                } else {
                    LogEntry::MapRead(offset, size)
                }),
                ActionView::Write { offset, bytes } => entry == (if op is Write {
                    LogEntry::Write(v.file_size, offset, bytes.len() as usize)
                } else {
                    LogEntry::MapWrite(v.file_size, offset, bytes.len() as usize)
                }),
                ActionView::SetLen { len } => entry == LogEntry::Truncate(v.file_size, len),
                ActionView::CloseOpen => entry is CloseOpen,
                ActionView::Fsync => entry is Fsync,
                ActionView::Fdatasync => entry is Fdatasync,
                ActionView::Nothing => acts(v) ==> entry == LogEntry::Skip(op),
            }
            &&& after.log.len() == v.log.len() + 1 || after.log.len() == v.log.len()
            &&& 0 <= i < after.log.len() - 1 ==> after.log[i] == v.log[i + v.log.len() + 1
                - after.log.len()]
        }),
{
    let c = FsxView { steps: (v.steps + 1) as u64, ..v };
    if op is Write || op is MapWrite {
        let (offset, size) = crate::fsx::write_place(c, d);
        assert(step_of(v, op, d).1 matches ActionView::Write { bytes, .. } ==> bytes.len() == size)
            by {
            let good = crate::fsx::written(c, offset as int, size as int);
            lemma_write_in_bounds(c, d);
            assert(good.subrange(offset as int, offset + size).len() == size);
        }
    }
}

proof fn lemma_write_in_bounds(v: FsxView, d: Draws)
    requires
        fsx_wf(v),
    ensures
        crate::fsx::write_place(v, d).0 + crate::fsx::write_place(v, d).1 <= v.flen,
{
    let starts = write_starts(v);
    let o = if v.file_size == 0 {
        0
    } else {
        d.offset as int % starts
    };
    if v.file_size > 0 {
        vstd::arithmetic::div_mod::lemma_mod_bound(d.offset as int, starts);
    }
    lemma_rounded(o, v.align as int);
    let offset = aligned(o, v.align as int);
    lemma_rounded(
        if offset + d.size > v.flen {
            v.flen - offset
        } else {
            d.size as int
        },
        v.align as int,
    );
}

/// Whether a byte of the `size` at `offset` lies from `start` to `end`.
pub open spec fn touches(offset: int, size: int, start: int, end: int) -> bool {
    exists|x: int| offset <= x < offset + size && start <= #[trigger] (x + 0) <= end
}

/// The line about a read, a write or a truncation is loud just where some of its bytes are
/// monitored: those read, those written, and those at or past the new end. A step that acts has
/// a line, and one that does not says nothing but that it skips.
pub proof fn law_monitored_bytes_are_loud(v: FsxView, op: Op, d: Draws)
    requires
        v.monitor matches Some((start, end)) ==> start <= end,
        fsx_wf(v),
        v.steps + 1 < u64::MAX,
    ensures
        match (step_of(v, op, d).1, step_of(v, op, d).2) {
            (ActionView::Nothing, Some((level, _))) => level is Debug,
            (ActionView::Nothing, None) => true,
            (_, None) => false,
            (ActionView::Read { offset, size }, Some((level, _))) => level == (if v.monitor matches
                Some((start, end)) && touches(offset as int, size as int, start as int, end as int) {
                LogLevel::Warn
            } else {
                LogLevel::Info
            }),
            (ActionView::Write { offset, bytes }, Some((level, _))) => level == (if v.monitor
                matches Some((start, end)) && touches(
                offset as int,
                bytes.len() as int,
                start as int,
                end as int,
            ) {
                LogLevel::Warn
            } else {
                LogLevel::Info
            }),
            (ActionView::SetLen { len }, Some((level, _))) => level == (if v.monitor matches Some(
                (_, end),
            ) && len <= end {
                LogLevel::Warn
            } else {
                LogLevel::Info
            }),
            (_, Some((level, _))) => level is Info,
        },
{
    let c = FsxView { steps: (v.steps + 1) as u64, ..v };
    lemma_write_in_bounds(c, d);
    if let Some((start, end)) = v.monitor {
        if let ActionView::Read { offset, size } = step_of(v, op, d).1 {
            lemma_touches(offset as int, size as int, start as int, end as int);
        }
        if let ActionView::Write { offset, bytes } = step_of(v, op, d).1 {
            lemma_touches(offset as int, bytes.len() as int, start as int, end as int);
            let (place, size) = crate::fsx::write_place(c, d);
            let good = crate::fsx::written(c, place as int, size as int);
            assert(good.subrange(place as int, place + size).len() == size);
        }
    }
}

proof fn lemma_touches(offset: int, size: int, start: int, end: int)
    requires
        start <= end,
        size > 0,
    ensures
        touches(offset, size, start, end) <==> start < offset + size && offset <= end,
{
    let x = if start < offset {
        offset
    } else {
        start
    };
    if start < offset + size && offset <= end {
        assert(start <= x + 0 <= end);
    }
}

/// A configuration passes just where the file may hold something, operations may have a size,
/// their sizes are in order and a multiple of the alignment may be drawn.
pub proof fn law_configurations_that_pass(c: Config)
    ensures
        config_verdict(c) is Ok <==> {
            &&& c.flen is Some ==> c.flen->0 > 0
            &&& 0 < c.opsize.max
            &&& c.opsize.min <= c.opsize.max
            &&& c.opsize.align is Some ==> c.opsize.align->0 <= c.opsize.max
        },
{
}

/// What was read passes just where every byte is the one that the file ought to hold.
pub proof fn law_read_bytes_are_all_checked(ex: &Exerciser, buf: Seq<u8>, offset: int)
    requires
        ex.wf(),
        0 <= offset,
        offset + buf.len() <= ex.file_size,
    ensures
        buffer_verdict(ex, buf, offset) is Ok <==> forall|i: int|
            0 <= i < buf.len() ==> #[trigger] buf[i] == file_contents(ex@)[offset + i],
{
    let part = ex@.good.subrange(offset, offset + buf.len());
    if forall|i: int|
        0 <= i < buf.len() ==> #[trigger] buf[i] == file_contents(ex@)[offset + i] {
        assert forall|i: int| 0 <= i < buf.len() implies part[i] == buf[i] by {
            assert(buf[i] == file_contents(ex@)[offset + i]);
        }
        assert(part =~= buf);
    }
    if part == buf {
        assert forall|i: int| 0 <= i < buf.len() implies #[trigger] buf[i] == file_contents(
            ex@,
        )[offset + i] by {
            assert(part[i] == buf[i]);
        }
    }
}

/// The first wrong byte is the first at which what was read differs from what it ought to be.
pub proof fn law_first_wrong_byte(good: Seq<u8>, buf: Seq<u8>, offset: int, i: nat)
    requires
        i <= buf.len(),
    ensures
        ({
            let first = first_wrong(good, buf, offset, i);
            &&& i <= first <= buf.len()
            &&& first < buf.len() ==> buf[first as int] != good[offset + first]
            &&& forall|k: int| i <= k < first ==> #[trigger] buf[k] == good[offset + k]
        }),
    decreases buf.len() - i,
{
    if i < buf.len() && good[offset + i] == buf[i as int] {
        law_first_wrong_byte(good, buf, offset, i + 1);
    }
}

/// The bytes that are counted as wrong are those that differ.
pub proof fn law_wrong_bytes_are_counted(good: Seq<u8>, buf: Seq<u8>, offset: int, n: nat)
    ensures
        wrong_bytes(good, buf, offset, n) == Set::new(
            |i: int| 0 <= i < n && buf[i] != good[offset + i],
        ).len(),
        Set::new(|i: int| 0 <= i < n && buf[i] != good[offset + i]).finite(),
    decreases n,
{
    let all = Set::new(|i: int| 0 <= i < n && buf[i] != good[offset + i]);
    if n == 0 {
        assert(all =~= Set::empty());
    } else {
        law_wrong_bytes_are_counted(good, buf, offset, (n - 1) as nat);
        let less = Set::new(|i: int| 0 <= i < n - 1 && buf[i] != good[offset + i]);
        if buf[n - 1] != good[offset + n - 1] {
            assert(all =~= less.insert(n - 1));
        } else {
            assert(all =~= less);
        }
    }
}

/// A dump of the log gives every entry a line, with the number of its step: the last entry has
/// that of the last step, and each the one after that of the entry before.
pub proof fn law_dump_numbers_the_steps(v: FsxView, seed: u64, k: int)
    requires
        v.log.len() <= v.steps,
        0 <= k < v.log.len(),
    ensures
        dump_lines(v, seed).len() == v.log.len() + 2,
        dump_lines(v, seed)[k + 2] == dump_line(
            v,
            (v.steps - (v.log.len() - 1 - k)) as nat,
            v.log[k],
        ),
        step_of_entry(v, v.log.len() - 1) == v.steps,
        k > 0 ==> step_of_entry(v, k) == step_of_entry(v, k - 1) + 1,
{
}

/// A run passes just where every worker has finished.
pub proof fn law_runs_pass_when_all_finish(ends: Seq<WorkerEnd>, i: nat)
    requires
        i <= ends.len(),
    ensures
        run_verdict(ends, i) is Ok <==> forall|k: int|
            i <= k < ends.len() ==> (#[trigger] ends[k]) is Finished,
    decreases ends.len() - i,
{
    if i < ends.len() {
        law_runs_pass_when_all_finish(ends, i + 1);
        if ends[i as int] !is Finished {
            assert(!(ends[i as int] is Finished));
        }
    }
}

/// A range is read just where two numbers are given with a colon between them, and as these.
pub proof fn law_ranges_are_read(a: Seq<char>, b: Seq<char>, n: int, m: int)
    requires
        !has_char(a, ':'),
        !has_char(b, ':'),
    ensures
        shows(a, n) && shows(b, m) && 0 <= n <= u64::MAX && 0 <= m <= u64::MAX ==> monitor_of(
            a + seq![':'] + b,
        ) == Ok::<(u64, u64), Seq<char>>((n as u64, m as u64)),
        monitor_of(a + seq![':'] + b) matches Ok((x, y)) ==> shows(a, x as int) && shows(
            b,
            y as int,
        ),
        monitor_of(a) is Err,
        monitor_of(a + seq![':'] + b + seq![':']) is Err,
{
    law_one_piece(a, ':');
    law_one_piece(b, ':');
    law_pieces_of_both(a, ':', b);
    let both = a + seq![':'] + b;
    law_pieces_of_both(both, ':', Seq::empty());
    assert(both + seq![':'] + Seq::empty() =~= both + seq![':']);
    let none = Seq::<char>::empty();
    law_one_piece(none, ':');
    law_decimal_numbers_are_read(a, u64::MAX as nat);
    law_decimal_numbers_are_read(b, u64::MAX as nat);
    if let Ok(x) = crate::numbers::number_of(a, 10, u64::MAX as nat) {
        if shows(a, n) {
            lemma_shows_one(a, n, x as int);
        }
    }
    if let Ok(y) = crate::numbers::number_of(b, 10, u64::MAX as nat) {
        if shows(b, m) {
            lemma_shows_one(b, m, y as int);
        }
    }
}

/// The expected contents of a file go into a file of its name with an ending of its own, among
/// the artifacts or beside the file.
pub proof fn law_expected_contents_have_their_place(
    dir: Seq<char>,
    name: Seq<char>,
    artifacts: Option<Seq<char>>,
)
    requires
        dir.len() > 0,
        !has_char(name, '/'),
        name.len() > 0,
        name != "."@,
        name != ".."@,
    ensures
        ({
            let place = good_place(dir + seq!['/'] + name, artifacts);
            match artifacts {
                Some(to) => place == joined_path(to, name + ".fsxgood"@),
                None => exists|d: Seq<char>|
                    path_parts(d) == path_parts(dir) && place == #[trigger] joined_path(
                        d,
                        name + ".fsxgood"@,
                    ),
            }
        }),
{
    let fname = dir + seq!['/'] + name;
    law_name_of_a_file(dir, name);
    law_parents_lack_the_last_component(fname);
    crate::case_laws::lemma_last_part(dir, name);
    let d = parent_of(fname)->0;
    assert(path_parts(fname).last() == name);
    assert(path_parts(d) =~= path_parts(dir));
    if artifacts is None {
        assert(good_place(fname, artifacts) == joined_path(d, name + ".fsxgood"@));
    }
}

/// The first worker has the seed of the run and each the one after that of the worker before.
/// All but the file, the seed and the artifacts is as in the options of the run.
pub proof fn law_workers_count_up_the_seed(cli: CliView, n: usize)
    requires
        cli.fname is Some,
        n >= 1,
        n < usize::MAX,
    ensures
        thread_cli(cli, 1).seed == cli.seed,
        cli.seed is Some ==> {
            let a = thread_cli(cli, n).seed->0;
            let b = thread_cli(cli, (n + 1) as usize).seed->0;
            if a == u64::MAX {
                b == 0
            } else {
                b == a + 1
            }
        },
        cli.seed is None ==> thread_cli(cli, n).seed is None,
        cli.artifacts_dir is None ==> thread_cli(cli, n).artifacts_dir is None,
        thread_cli(cli, n) == (CliView {
            fname: thread_cli(cli, n).fname,
            seed: thread_cli(cli, n).seed,
            artifacts_dir: thread_cli(cli, n).artifacts_dir,
            ..cli
        }),
{
    if let Some(seed) = cli.seed {
        lemma_next_round(seed + n - 1);
        lemma_next_round(seed as int);
    }
}

proof fn lemma_next_round(s: int)
    requires
        s >= 0,
    ensures
        (s + 1) % 0x1_0000_0000_0000_0000 == if s % 0x1_0000_0000_0000_0000 == u64::MAX {
            0
        } else {
            s % 0x1_0000_0000_0000_0000 + 1
        },
        s <= u64::MAX ==> s % 0x1_0000_0000_0000_0000 == s,
{
}

/// A worker that did not finish is told of: its own words, or that it is not known why.
pub proof fn law_unfinished_workers_are_told_of(ends: Seq<WorkerEnd>, i: nat, k: int)
    requires
        i <= k < ends.len(),
        ends[k] !is Finished,
        forall|j: int| i <= j < k ==> (#[trigger] ends[j]) is Finished,
    ensures
        run_verdict(ends, i) matches Err(text) && (match ends[k] {
            WorkerEnd::Failed(why) => ends_in(text, why@),
            WorkerEnd::Panicked(Some(why)) => ends_in(text, why@),
            _ => ends_in(text, "unknown panic"@),
        }) && (ends.len() > 1 ==> starts_in(text, "thread-"@ + dec((k + 1) as nat) + " failed: "@)),
    decreases k - i,
{
    if i < k {
        assert(ends[i as int] is Finished);
        law_unfinished_workers_are_told_of(ends, i + 1, k);
    } else {
        let why = crate::fsx_run::complaint(ends[k])->0;
        let text = run_verdict(ends, i)->Err_0;
        let front = "thread-"@ + dec((k + 1) as nat) + " failed: "@;
        assert(text.skip(text.len() - why.len()) =~= why);
        if ends.len() > 1 {
            assert(text.take(front.len() as int) =~= front);
        }
    }
}

/// A write is told to leave a hole just where it begins past the end, to make the file longer
/// just where it begins in it or at its end and goes past, and nothing else where it stays in.
pub proof fn law_growth_is_told(old_len: u64, offset: u64, size: usize)
    ensures
        offset > old_len ==> growth_text(old_len, offset, size) == " HOLE"@,
        offset <= old_len < offset + size ==> growth_text(old_len, offset, size) == " EXTEND"@,
        offset + size <= old_len ==> growth_text(old_len, offset, size).len() == 0,
{
    reveal_strlit("");
}

/// The byte that tells the step of a wrong one is at an even offset, at the wrong byte or right
/// behind it. Where it came from a write of that step, it is the step, counted round to 256.
pub proof fn law_telling_bytes_are_at_even_offsets(
    offset: int,
    first: int,
    step: u64,
    original: Seq<u8>,
)
    ensures
        (offset + telling_place(offset, first)) % 2 == 0,
        first <= telling_place(offset, first) <= first + 1,
        crate::fsx::stamp(step, original, offset + telling_place(offset, first)) == step % 256,
{
}

/// The line of an entry begins with the number of its step.
pub proof fn law_lines_begin_with_their_step(v: FsxView, i: nat, entry: LogEntry)
    ensures
        starts_in(dump_line(v, i, entry), pad_left(dec(i), v.stepwidth as nat, ' ')),
{
    let front = pad_left(dec(i), v.stepwidth as nat, ' ');
    assert(dump_line(v, i, entry).take(front.len() as int) =~= front);
}

/// A step draws its size, in the range that is set, and then its place; only a truncation goes
/// on to draw a length. What is drawn after a step follows from what it left.
pub proof fn law_draws_follow_one_another(words: Seq<u32>, opsize: Opsize, op: Op)
    ensures
        ({
            let (draws, after) = step_draws(words, opsize, op);
            let (size, second) = number_drawn(words, opsize.min, opsize.max, usize::BITS);
            let (offset, third) = word_drawn(second);
            let (length, fourth) = word_drawn(third);
            &&& draws.size == size
            &&& draws.offset == offset
            &&& op is Truncate ==> draws.length == length && after == fourth
            &&& op !is Truncate ==> draws.length == 0 && after == third
        }),
{
}

/// An exerciser begins with a file of zeros and with bytes of its generator, which goes on from
/// there.
pub proof fn law_exercisers_begin_with_drawn_bytes(cli: Cli, conf: Config, seed: u64, i: int)
    ensures
        ({
            let v = first_view(cli, conf, seed);
            let (bytes, after) = bytes_drawn(seeded(seed), v.flen as nat);
            &&& v.original == bytes
            &&& first_words(conf, seed) == after
            &&& v.good.len() == v.flen
            &&& 0 <= i < v.flen ==> v.good[i] == 0
        }),
{
}

/// The lines about wrong bytes show the first of them: its offset, the byte that was expected
/// there and the one that came. It can be told which step it came from just where the telling
/// byte was read.
pub proof fn law_wrong_bytes_are_shown(v: FsxView, buf: Seq<u8>, offset: int, k: int)
    requires
        0 <= offset,
        offset + buf.len() <= v.good.len(),
        0 <= k < buf.len(),
        buf[k] != v.good[offset + k],
        forall|i: int| 0 <= i < k ==> #[trigger] buf[i] == v.good[offset + i],
    ensures
        ({
            let lines = miscompare_lines(v, buf, offset);
            &&& lines.len() == 4
            &&& starts_in(
                lines[2],
                offset_text(v, (offset + k) as nat) + " "@ + byte_text(v.good[offset + k]) + " "@
                    + byte_text(buf[k]) + " "@,
            )
        }),
        can_tell(v.good, buf, offset) <==> (offset + k) % 2 == 0 || k + 1 < buf.len(),
{
    lemma_first_is(v.good, buf, offset, 0, k);
    let lines = miscompare_lines(v, buf, offset);
    let front = offset_text(v, (offset + k) as nat) + " "@ + byte_text(v.good[offset + k]) + " "@
        + byte_text(buf[k]) + " "@;
    assert(lines[2].take(front.len() as int) =~= front);
}

proof fn lemma_first_is(good: Seq<u8>, buf: Seq<u8>, offset: int, i: nat, k: int)
    requires
        i <= k < buf.len(),
        buf[k] != good[offset + k],
        forall|j: int| i <= j < k ==> #[trigger] buf[j] == good[offset + j],
    ensures
        first_wrong(good, buf, offset, i) == k,
    decreases k - i,
{
    if i < k {
        assert(buf[i as int] == good[offset + i]);
        lemma_first_is(good, buf, offset, i + 1, k);
    }
}

/// The line of a truncation says that the file grew just where it did.
pub proof fn law_truncations_tell_their_direction(v: FsxView, i: nat, old_len: u64, new_len: u64)
    ensures
        starts_in(
            dump_line(v, i, LogEntry::Truncate(old_len, new_len)),
            pad_left(dec(i), v.stepwidth as nat, ' ') + " TRUNCATE  "@ + (if old_len < new_len {
                "UP"@
            } else {
                "DOWN"@
            }),
        ),
{
    let line = dump_line(v, i, LogEntry::Truncate(old_len, new_len));
    reveal_strlit("UP");
    reveal_strlit("DOWN");
    let front = pad_left(dec(i), v.stepwidth as nat, ' ') + " TRUNCATE  "@ + (if old_len < new_len {
        "UP"@
    } else {
        "DOWN"@
    });
    assert(line.take(front.len() as int) =~= front);
}

/// A report about the log has a line for each entry, in their order, with the number of its
/// step.
pub proof fn law_reports_have_a_line_for_each_entry(v: FsxView, n: nat)
    requires
        n < v.log.len() <= v.steps,
    ensures
        report_lines(v, 0).len() == 0,
        report_lines(v, n + 1) == report_lines(v, n) + (dec(
            (v.steps - (v.log.len() - 1 - n)) as nat,
        ) + ": "@ + v.log[n as int].debug_text() + "\n"@),
{
    assert(report_lines(v, n + 1) =~= report_lines(v, n) + (dec(
        (v.steps - (v.log.len() - 1 - n)) as nat,
    ) + ": "@ + v.log[n as int].debug_text() + "\n"@));
}

/// The last line about wrong bytes names the step that they may have come from, counted round
/// to 256, unless the telling byte is zero, which no write of a step that can be told leaves.
pub proof fn law_misdirected_writes_are_named(v: FsxView, buf: Seq<u8>, offset: int, k: int)
    requires
        0 <= offset,
        offset + buf.len() <= v.good.len(),
        0 <= k < buf.len(),
        buf[k] != v.good[offset + k],
        forall|i: int| 0 <= i < k ==> #[trigger] buf[i] == v.good[offset + i],
    ensures
        ({
            let telling = buf[telling_place(offset, k)];
            miscompare_lines(v, buf, offset)[3] == if telling != 0 {
                "Step# (mod 256) for a misdirected write may be "@ + dec(telling as nat)
            } else {
                "Step# for the bad data is unknown; check HOLE and EXTEND ops"@
            }
        }),
{
    lemma_first_is(v.good, buf, offset, 0, k);
}

} // verus!
