//! What the scenarios of a coordinated run do.

use vstd::prelude::*;

use crate::cli::Cli;
use crate::coordinator::{steps_of, Coordinator};
use crate::fsx::Config;
use crate::moves::{
    all_append, all_close, all_offsets, all_open, all_overlap, all_write, fillers, moves_of,
};
use crate::scenario::{
    drawn_kind, kind_named, marker_bytes, marker_size, rounds_of, settings_from, Mark, MoveView,
    RunConfig, ScenarioKind,
};
use crate::script::inject_in;
use crate::worker::LogSink;

verus! {

/// The settings are those that are asked for, and usual ones where nothing is; none that counts
/// something is zero, and the largest operation is no smaller than the smallest.
pub proof fn law_settings_are_those_asked_for(
    c: RunConfig,
    cli: Cli,
    config: Config,
    available: Option<usize>,
)
    requires
        settings_from(c, cli, config, available),
    ensures
        c.workers >= 1 && c.files >= 1 && c.handles >= 1 && c.parallelism >= 1 && c.numops >= 1,
        cli.threads matches Some(n) ==> n >= 1 ==> c.workers == n,
        cli.threads is None ==> (available matches Some(n) ==> n >= 1 ==> c.workers == n),
        cli.threads is None && available is None ==> c.workers == 1,
        cli.files >= 1 ==> c.files == cli.files,
        cli.handles >= 1 ==> c.handles == cli.handles,
        cli.parallelism >= 1 ==> c.parallelism == cli.parallelism,
        cli.numops matches Some(n) ==> n >= 1 ==> c.numops == n,
        cli.numops is None ==> c.numops == 32,
        cli.seed matches Some(n) ==> c.seed == n,
        cli.seed is None ==> c.seed == 1,
        config.flen matches Some(n) ==> c.flen == n as usize,
        config.flen is None ==> c.flen == 262144,
        c.opsize_min == config.opsize.min,
        c.opsize_max >= c.opsize_min && c.opsize_max >= 1 && c.opsize_max >= config.opsize.max,
        c.opsize_max == config.opsize.max || c.opsize_max == c.opsize_min || c.opsize_max == 1,
        c.inject == cli.inject,
        c.verify_every == cli.verify_every,
        cli.fname is Some && cli.fname->0@ == c.root@,
        c.scenario@ == cli.scenario@,
{
}

/// The handles that are open after a move.
pub open spec fn left_by(m: MoveView, open: Set<(usize, u64)>) -> Set<(usize, u64)> {
    match m {
        MoveView::Open { worker, handle, .. } => open.insert((worker, handle)),
        MoveView::Close { worker, handle } => open.remove((worker, handle)),
        _ => open,
    }
}

/// The handles that are open after the moves from `i` on.
pub open spec fn left_open(moves: Seq<MoveView>, i: nat, open: Set<(usize, u64)>) -> Set<
    (usize, u64),
>
    decreases moves.len() - i,
{
    if i >= moves.len() {
        open
    } else {
        left_open(moves, i + 1, left_by(moves[i as int], open))
    }
}

proof fn lemma_left_behind(a: Seq<MoveView>, b: Seq<MoveView>, j: nat, open: Set<(usize, u64)>)
    requires
        j <= b.len(),
    ensures
        left_open(a + b, a.len() + j, open) == left_open(b, j, open),
    decreases b.len() - j,
{
    if j < b.len() {
        assert((a + b)[(a.len() + j) as int] == b[j as int]);
        lemma_left_behind(a, b, j + 1, left_by(b[j as int], open));
    }
}

proof fn lemma_left_of_both(a: Seq<MoveView>, b: Seq<MoveView>, i: nat, open: Set<(usize, u64)>)
    requires
        i <= a.len(),
    ensures
        left_open(a + b, i, open) == left_open(b, 0, left_open(a, i, open)),
    decreases a.len() - i,
{
    if i < a.len() {
        assert((a + b)[i as int] == a[i as int]);
        lemma_left_of_both(a, b, i + 1, left_by(a[i as int], open));
    } else {
        lemma_left_behind(a, b, 0, open);
    }
}

proof fn lemma_left_pushed(a: Seq<MoveView>, m: MoveView, open: Set<(usize, u64)>)
    ensures
        left_open(a.push(m), 0, open) == left_by(m, left_open(a, 0, open)),
{
    lemma_left_of_both(a, seq![m], 0, open);
    assert(a + seq![m] =~= a.push(m));
    let before = left_open(a, 0, open);
    assert(left_open(seq![m], 1, left_by(m, before)) == left_by(m, before));
}

/// The handle of each of the first `n` workers.
pub open spec fn everyones(handle: u64, n: nat) -> Set<(usize, u64)> {
    Set::new(|k: (usize, u64)| 1 <= k.0 <= n && k.1 == handle)
}

proof fn lemma_all_open(
    handle: u64,
    path: Seq<char>,
    flags: crate::world::OpenFlags,
    n: nat,
    open: Set<(usize, u64)>,
)
    requires
        n <= usize::MAX,
    ensures
        left_open(all_open(handle, path, flags, n), 0, open) == open.union(everyones(handle, n)),
    decreases n,
{
    if n > 0 {
        lemma_all_open(handle, path, flags, (n - 1) as nat, open);
        lemma_left_pushed(
            all_open(handle, path, flags, (n - 1) as nat),
            MoveView::Open { worker: n as usize, handle, path, flags },
            open,
        );
    }
    assert(left_open(all_open(handle, path, flags, n), 0, open) =~= open.union(
        everyones(handle, n),
    ));
}

proof fn lemma_all_close(handle: u64, n: nat, open: Set<(usize, u64)>)
    requires
        n <= usize::MAX,
    ensures
        left_open(all_close(handle, n), 0, open) == open.difference(everyones(handle, n)),
        forall|i: int| 0 <= i < all_close(handle, n).len() ==> #[trigger] all_close(handle, n)[i] is Close,
    decreases n,
{
    if n > 0 {
        lemma_all_close(handle, (n - 1) as nat, open);
        lemma_left_pushed(
            all_close(handle, (n - 1) as nat),
            MoveView::Close { worker: n as usize, handle },
            open,
        );
    }
    assert(left_open(all_close(handle, n), 0, open) =~= open.difference(everyones(handle, n)));
}

proof fn lemma_all_write(c: RunConfig, n: nat, open: Set<(usize, u64)>)
    ensures
        left_open(all_write(c, n), 0, open) == open,
    decreases n,
{
    if n > 0 {
        lemma_all_write(c, (n - 1) as nat, open);
        let all = all_write(c, n);
        lemma_left_pushed(all.drop_last(), all.last(), open);
        lemma_left_pushed(all.drop_last().drop_last(), all.drop_last().last(), open);
        assert(all.drop_last().push(all.last()) =~= all);
        assert(all.drop_last().drop_last() =~= all_write(c, (n - 1) as nat));
        assert(all.drop_last().drop_last().push(all.drop_last().last()) =~= all.drop_last());
    }
}

proof fn lemma_all_offsets(c: RunConfig, n: nat, open: Set<(usize, u64)>)
    requires
        n <= usize::MAX,
        forall|k: usize| !open.contains((k, 2u64)),
    ensures
        left_open(all_offsets(c, n), 0, open) == open,
    decreases n,
{
    if n > 0 {
        lemma_all_offsets(c, (n - 1) as nat, open);
        let before = all_offsets(c, (n - 1) as nat);
        let all = all_offsets(c, n);
        let five = all.skip(before.len() as int);
        assert(before + five =~= all);
        lemma_left_of_both(before, five, 0, open);
        reveal_with_fuel(left_open, 7);
        assert(five.len() == 5);
        assert(left_open(five, 0, open) =~= open);
    }
}

proof fn lemma_all_overlap(c: RunConfig, n: nat, open: Set<(usize, u64)>)
    requires
        n <= usize::MAX,
    ensures
        left_open(all_overlap(c, n), 0, open) == open.union(everyones(3, n)),
    decreases n,
{
    if n > 0 {
        lemma_all_overlap(c, (n - 1) as nat, open);
        let before = all_overlap(c, (n - 1) as nat);
        let all = all_overlap(c, n);
        let two = all.skip(before.len() as int);
        assert(before + two =~= all);
        lemma_left_of_both(before, two, 0, open);
        reveal_with_fuel(left_open, 4);
        assert(two.len() == 2);
    }
    assert(left_open(all_overlap(c, n), 0, open) =~= open.union(everyones(3, n)));
}

proof fn lemma_fillers(c: RunConfig, n: nat, open: Set<(usize, u64)>)
    requires
        n <= 16,
        forall|h: u64| h >= 100 ==> !open.contains((1usize, h)),
    ensures
        left_open(fillers(c, n), 0, open) == open,
    decreases n,
{
    if n > 0 {
        lemma_fillers(c, (n - 1) as nat, open);
        let before = fillers(c, (n - 1) as nat);
        let all = fillers(c, n);
        let two = all.skip(before.len() as int);
        assert(before + two =~= all);
        lemma_left_of_both(before, two, 0, open);
        reveal_with_fuel(left_open, 4);
        assert(two.len() == 2);
        assert(left_open(two, 0, open) =~= open);
    }
}

proof fn lemma_all_append(n: nat, open: Set<(usize, u64)>)
    ensures
        left_open(all_append(n), 0, open) == open,
    decreases n,
{
    if n > 0 {
        lemma_all_append((n - 1) as nat, open);
        lemma_left_pushed(all_append((n - 1) as nat), all_append(n).last(), open);
    }
}

/// No scenario leaves a handle open: every one that a worker opens it closes.
pub proof fn law_scenarios_close_their_handles(c: RunConfig, kind: ScenarioKind)
    requires
        c.wf(),
    ensures
        left_open(moves_of(c, kind), 0, Set::empty()) == Set::<(usize, u64)>::empty(),
{
    let none = Set::<(usize, u64)>::empty();
    let n = c.workers as nat;
    let moves = moves_of(c, kind);
    match kind {
        ScenarioKind::Random => {},
        ScenarioKind::SharedInode | ScenarioKind::Injection => {
            let path = crate::moves::numbered_file(c, 0);
            let opens = all_open(1, path, crate::moves::writing(), n);
            let writes = all_write(c, n);
            let fresh = MoveView::FreshVerify { worker: 1, path };
            lemma_all_open(1, path, crate::moves::writing(), n, none);
            lemma_left_of_both(opens, writes, 0, none);
            let open = none.union(everyones(1, n));
            lemma_all_write(c, n, open);
            lemma_left_pushed(opens + writes, fresh, none);
            lemma_left_of_both((opens + writes).push(fresh), all_close(1, n), 0, none);
            lemma_all_close(1, n, open);
            assert(left_open(moves, 0, none) =~= none);
        },
        ScenarioKind::IndependentOffsets => {
            lemma_all_offsets(c, n, none);
            lemma_left_pushed(all_offsets(c, n), MoveView::VerifyAll, none);
        },
        ScenarioKind::OverlappingWrites => {
            let fresh = MoveView::FreshVerify {
                worker: 1,
                path: crate::moves::numbered_file(c, 0),
            };
            lemma_all_overlap(c, n, none);
            lemma_left_pushed(all_overlap(c, n), fresh, none);
            lemma_left_of_both(all_overlap(c, n).push(fresh), all_close(3, n), 0, none);
            lemma_all_close(3, n, none.union(everyones(3, n)));
            assert(left_open(moves, 0, none) =~= none);
        },
        ScenarioKind::StrongerRights => {
            reveal_with_fuel(left_open, 12);
            assert(left_open(moves, 0, none) =~= none);
        },
        ScenarioKind::FdReuse => {
            let b = crate::moves::under_root(c, "b.log"@);
            let peer = crate::moves::peer(c);
            let first = seq![
                MoveView::Open {
                    worker: 1,
                    handle: 20,
                    path: crate::moves::under_root(c, "a.log"@),
                    flags: crate::moves::writing(),
                },
                MoveView::Close { worker: 1, handle: 20 },
                MoveView::Open { worker: peer, handle: 21, path: b, flags: crate::moves::writing() },
                MoveView::Write {
                    worker: peer,
                    handle: 21,
                    offset: 0,
                    mark: crate::moves::mark(2, 21, 2, 128),
                },
            ];
            let many = crate::scenario::smaller(c.handles as int, 16) as nat;
            let open = none.insert((peer, 21u64));
            assert(left_open(first, 0, none) =~= open) by {
                reveal_with_fuel(left_open, 6);
            }
            lemma_left_of_both(first, fillers(c, many), 0, none);
            lemma_fillers(c, many, open);
            let fresh = MoveView::FreshVerify { worker: 1, path: b };
            let close = MoveView::Close { worker: peer, handle: 21 };
            lemma_left_pushed(first + fillers(c, many), fresh, none);
            lemma_left_pushed((first + fillers(c, many)).push(fresh), close, none);
            assert(left_open(moves, 0, none) =~= none);
        },
        ScenarioKind::Append => {
            let path = crate::moves::under_root(c, "append.log"@);
            let opens = all_open(30, path, crate::moves::appending(), n);
            let open = none.union(everyones(30, n));
            let middle = if c.parallelism > 1 && c.workers > 1 {
                seq![
                    MoveView::AppendTogether {
                        count: crate::scenario::smaller(
                            c.workers as int,
                            c.parallelism as int,
                        ) as usize,
                    },
                ]
            } else {
                all_append(n)
            };
            let fresh = MoveView::FreshVerify { worker: 1, path };
            lemma_all_open(30, path, crate::moves::appending(), n, none);
            lemma_left_of_both(opens, middle, 0, none);
            lemma_all_append(n, open);
            assert(left_open(middle, 0, open) == open) by {
                reveal_with_fuel(left_open, 3);
            }
            lemma_left_pushed(opens + middle, fresh, none);
            lemma_left_of_both((opens + middle).push(fresh), all_close(30, n), 0, none);
            lemma_all_close(30, n, open);
            assert(left_open(moves, 0, none) =~= none);
        },
        ScenarioKind::UnlinkRecreate => {
            reveal_with_fuel(left_open, 10);
            assert(left_open(moves, 0, none) =~= none);
        },
        ScenarioKind::Rename => {
            reveal_with_fuel(left_open, 7);
            assert(left_open(moves, 0, none) =~= none);
        },
        ScenarioKind::WordpressLike => {
            reveal_with_fuel(left_open, 18);
            assert(left_open(moves, 0, none) =~= none);
        },
    }
}

/// Whether the move changes what a file holds or is called.
pub open spec fn changes(m: MoveView) -> bool {
    m is Write || m is Append || m is AppendTogether || m is WriteLog || m is Unlink || m is Rename
}

/// Whether the move reads a whole file, or all of them, and compares what it holds.
pub open spec fn verifies(m: MoveView) -> bool {
    m is FreshVerify || m is VerifyAll
}

/// Every scenario verifies what it did: behind the last change of a file there is a fresh read
/// of a whole one.
pub proof fn law_scenarios_verify_what_they_did(c: RunConfig, kind: ScenarioKind)
    requires
        c.wf(),
        kind !is Random,
    ensures
        exists|j: int|
            0 <= j < moves_of(c, kind).len() && verifies(#[trigger] moves_of(c, kind)[j])
                && forall|k: int|
                j < k < moves_of(c, kind).len() ==> !changes(#[trigger] moves_of(c, kind)[k]),
{
    let n = c.workers as nat;
    let none = Set::<(usize, u64)>::empty();
    let moves = moves_of(c, kind);
    let j: int = match kind {
        ScenarioKind::SharedInode | ScenarioKind::Injection => {
            lemma_all_close(1, n, none);
            moves.len() - all_close(1, n).len() - 1
        },
        ScenarioKind::IndependentOffsets => moves.len() - 1,
        ScenarioKind::OverlappingWrites => {
            lemma_all_close(3, n, none);
            moves.len() - all_close(3, n).len() - 1
        },
        ScenarioKind::StrongerRights => 7,
        ScenarioKind::FdReuse => moves.len() - 2,
        ScenarioKind::Append => {
            lemma_all_close(30, n, none);
            moves.len() - all_close(30, n).len() - 1
        },
        ScenarioKind::UnlinkRecreate => 5,
        ScenarioKind::Rename => 3,
        _ => 12,
    };
    assert(verifies(moves[j]));
    assert forall|k: int| j < k < moves.len() implies !changes(#[trigger] moves[k]) by {
        match kind {
            ScenarioKind::SharedInode | ScenarioKind::Injection => {
                assert(moves[k] == all_close(1, n)[k - j - 1]);
            },
            ScenarioKind::OverlappingWrites => {
                assert(moves[k] == all_close(3, n)[k - j - 1]);
            },
            ScenarioKind::Append => {
                assert(moves[k] == all_close(30, n)[k - j - 1]);
            },
            _ => {},
        }
    }
}

proof fn lemma_write_moves(c: RunConfig, n: nat, k: int)
    requires
        0 <= k < n,
        c.wf(),
        n <= c.workers,
    ensures
        all_write(c, n).len() == 2 * n,
        ({
            let size = marker_size(c, crate::scenario::shared_size(c));
            &&& all_write(c, n)[2 * k] == (MoveView::Write {
                worker: (k + 1) as usize,
                handle: 1,
                offset: (k * size) as u64,
                mark: Mark {
                    worker: (k + 1) as usize,
                    handle: 1,
                    path_id: 0,
                    min_size: crate::scenario::shared_size(c),
                },
            })
            &&& all_write(c, n)[2 * k + 1] == (MoveView::ReadVerify {
                worker: (k + 1) as usize,
                handle: 1,
                offset: (k * size) as u64,
                size,
            })
            &&& k * size <= u64::MAX
        }),
    decreases n,
{
    let size = marker_size(c, crate::scenario::shared_size(c)) as int;
    let top = crate::scenario::larger(size, 128);
    assert(k * size <= c.workers * top) by (nonlinear_arith)
        requires
            0 <= k < c.workers,
            0 <= size <= top,
    ;
    if k < n - 1 {
        lemma_write_moves(c, (n - 1) as nat, k);
    } else if n > 1 {
        lemma_write_moves(c, (n - 1) as nat, n - 2);
    } else {
        assert(all_write(c, 0).len() == 0);
    }
}

proof fn lemma_all_open_len(handle: u64, path: Seq<char>, flags: crate::world::OpenFlags, n: nat)
    ensures
        all_open(handle, path, flags, n).len() == n,
        forall|i: int|
            0 <= i < n ==> #[trigger] all_open(handle, path, flags, n)[i] == (MoveView::Open {
                worker: (i + 1) as usize,
                handle,
                path,
                flags,
            }),
    decreases n,
{
    if n > 0 {
        lemma_all_open_len(handle, path, flags, (n - 1) as nat);
    }
}

/// Workers that share a file write side by side: once all have opened it, each writes its own
/// part, as long as the marker that it writes, and reads just that part back. The parts of two
/// workers do not overlap.
pub proof fn law_shared_writes_are_side_by_side(c: RunConfig, k: int, other: int, step: u64)
    requires
        c.wf(),
        0 <= k < other < c.workers,
    ensures
        ({
            let n = c.workers as int;
            let moves = moves_of(c, ScenarioKind::SharedInode);
            let w = moves[n + 2 * k];
            let r = moves[n + 2 * k + 1];
            let next = moves[n + 2 * other];
            &&& moves[k] is Open && moves[k]->Open_worker == k + 1 && moves[k]->Open_handle == 1
            &&& moves[k]->Open_path == moves[other]->Open_path
            &&& moves[k]->flags.write && moves[k]->flags.read && moves[k]->flags.create
            &&& !moves[k]->flags.truncate && !moves[k]->flags.append && !moves[k]->flags.create_new
            &&& w is Write && w->Write_worker == k + 1 && w->Write_handle == 1
            &&& w->Write_mark.worker == k + 1 && w->Write_mark.handle == 1
            &&& r is ReadVerify && r->ReadVerify_worker == k + 1 && r->ReadVerify_handle == 1
            &&& r->ReadVerify_offset == w->Write_offset
            &&& r->ReadVerify_size == marker_bytes(c, step, w->Write_mark).len()
            &&& next is Write
            &&& w->Write_offset + marker_bytes(c, step, w->Write_mark).len() <= next->Write_offset
        }),
{
    let n = c.workers as nat;
    let path = crate::moves::numbered_file(c, 0);
    lemma_all_open_len(1, path, crate::moves::writing(), n);
    lemma_write_moves(c, n, k);
    lemma_write_moves(c, n, other);
    let moves = moves_of(c, ScenarioKind::SharedInode);
    assert(moves[n + 2 * k] == all_write(c, n)[2 * k]);
    assert(moves[n + 2 * k + 1] == all_write(c, n)[2 * k + 1]);
    assert(moves[n + 2 * other] == all_write(c, n)[2 * other]);
    assert(moves[k] == all_open(1, path, crate::moves::writing(), n)[k]);
    assert(moves[other] == all_open(1, path, crate::moves::writing(), n)[other]);
    let size = marker_size(c, crate::scenario::shared_size(c)) as int;
    assert(k * size + size <= other * size) by (nonlinear_arith)
        requires
            k + 1 <= other,
            size >= 0,
    ;
}

/// The steps that the first `n` moves take.
pub open spec fn steps_before(moves: Seq<MoveView>, n: nat) -> nat
    decreases n,
{
    if n == 0 {
        0
    } else {
        steps_before(moves, (n - 1) as nat) + steps_of(moves[n - 1])
    }
}

proof fn lemma_steps_of_opens(moves: Seq<MoveView>, n: nat)
    requires
        n <= moves.len(),
        forall|i: int| 0 <= i < n ==> (#[trigger] moves[i]) is Open,
    ensures
        steps_before(moves, n) == n,
    decreases n,
{
    if n > 0 {
        lemma_steps_of_opens(moves, (n - 1) as nat);
        assert(moves[n - 1] is Open);
    }
}

/// A scenario that is there to inject an error injects it into its first write, unless another
/// step is asked for; every other scenario injects only what is asked for.
pub proof fn law_injection_hits_the_first_write(c: &Coordinator, kind: ScenarioKind)
    requires
        c.cfg.wf(),
        c.steps + c.cfg.workers + 1 <= u64::MAX,
    ensures
        c.cfg.inject is Some || kind !is Injection ==> inject_in(c, kind) == c.cfg.inject,
        c.cfg.inject is None && kind is Injection ==> exists|i: int|
            0 <= i < moves_of(c.cfg, kind).len() && #[trigger] moves_of(c.cfg, kind)[i] is Write
                && inject_in(c, kind) == Some(
                (c.steps + steps_before(moves_of(c.cfg, kind), i as nat) + 1) as u64,
            ) && forall|k: int| 0 <= k < i ==> !(#[trigger] moves_of(c.cfg, kind)[k] is Write),
{
    if c.cfg.inject is None && kind is Injection {
        let n = c.cfg.workers as nat;
        let path = crate::moves::numbered_file(c.cfg, 0);
        let moves = moves_of(c.cfg, kind);
        lemma_all_open_len(1, path, crate::moves::writing(), n);
        lemma_write_moves(c.cfg, n, 0);
        assert forall|k: int| 0 <= k < n implies (#[trigger] moves[k]) is Open by {
            assert(moves[k] == all_open(1, path, crate::moves::writing(), n)[k]);
        }
        lemma_steps_of_opens(moves, n);
        assert(moves[n as int] == all_write(c.cfg, n)[0]);
        assert(moves[n as int] is Write);
    }
}

/// Workers append at once just where there are several and more than one may: as many as there
/// are and as may. Else each appends by itself.
pub proof fn law_appends_are_parallel_where_allowed(c: RunConfig)
    requires
        c.wf(),
    ensures
        ({
            let m = moves_of(c, ScenarioKind::Append)[c.workers as int];
            if c.parallelism >= 2 && c.workers >= 2 {
                &&& m is AppendTogether
                &&& m->count <= c.workers && m->count <= c.parallelism
                &&& m->count == c.workers || m->count == c.parallelism
            } else {
                &&& m is Append
                &&& m->Append_worker == 1
                &&& m->Append_handle == 30
            }
        }),
{
    let n = c.workers as nat;
    let path = crate::moves::under_root(c, "append.log"@);
    lemma_all_open_len(30, path, crate::moves::appending(), n);
    lemma_appends(n, 0);
}

proof fn lemma_appends(n: nat, i: int)
    requires
        0 <= i < n,
    ensures
        all_append(n).len() == n,
        all_append(n)[i] is Append,
        all_append(n)[i]->Append_worker == (i + 1) as usize,
        all_append(n)[i]->Append_handle == 30,
    decreases n,
{
    if i < n - 1 {
        lemma_appends((n - 1) as nat, i);
    } else if n > 1 {
        lemma_appends((n - 1) as nat, n - 2);
    } else {
        assert(all_append(0).len() == 0);
    }
}

/// A random run takes each of six kinds for one number, and none that goes on by itself or
/// injects an error.
pub proof fn law_random_rounds_take_six_kinds(a: i32, b: i32)
    requires
        0 <= a < 6,
        0 <= b < 6,
    ensures
        drawn_kind(a) == drawn_kind(b) ==> a == b,
        drawn_kind(a) !is Random && drawn_kind(a) !is Injection,
        drawn_kind(a) is SharedInode || drawn_kind(a) is FdReuse || drawn_kind(a) is Append
            || drawn_kind(a) is UnlinkRecreate || drawn_kind(a) is StrongerRights || drawn_kind(
            a,
        ) is WordpressLike,
{
}

/// A scenario is gone through as often as there are operations, but for those that do all they
/// do in one round.
pub proof fn law_rounds(kind: ScenarioKind, numops: u64)
    ensures
        kind is IndependentOffsets || kind is OverlappingWrites || kind is Rename || kind
            is Injection ==> rounds_of(kind, numops) == 1,
        kind is Random || kind is SharedInode || kind is StrongerRights || kind is FdReuse || kind
            is Append || kind is UnlinkRecreate || kind is WordpressLike ==> rounds_of(kind, numops)
            == numops,
{
}

/// The names of the scenarios of a kind.
pub open spec fn names_of(kind: ScenarioKind) -> Seq<Seq<char>> {
    match kind {
        ScenarioKind::Random => seq![
            "random"@,
        ],
        ScenarioKind::SharedInode => seq![
            "shared-inode"@,
            "same-file-positioned-io"@,
            "fresh-open-after-every-write"@,
            "close-all-final-verify"@,
            "cross-worker-final-verify"@,
            "restart-compatible-manifest"@,
            "timeout-with-open-handles"@,
        ],
        ScenarioKind::IndependentOffsets => seq![
            "same-file-independent-offsets"@,
        ],
        ScenarioKind::OverlappingWrites => seq![
            "same-file-overlapping-writes"@,
        ],
        ScenarioKind::StrongerRights => seq![
            "stronger-rights"@,
            "read-handle-survives-write-open"@,
            "stronger-rights-reopen"@,
        ],
        ScenarioKind::FdReuse => seq![
            "fd-reuse"@,
            "fd-reuse-close-after-open"@,
            "fd-reuse-many-fillers"@,
            "fd-try-clone-shape"@,
            "fd-renumber-shape"@,
            "close-while-peer-reads"@,
        ],
        ScenarioKind::Append => seq![
            "append"@,
            "append-serial"@,
            "append-parallel-pairs"@,
            "append-after-stale-size-pressure"@,
            "append-large-records"@,
        ],
        ScenarioKind::UnlinkRecreate => seq![
            "unlink-recreate"@,
            "unlink-open-handle"@,
            "unlink-recreate-fd-reuse"@,
        ],
        ScenarioKind::Rename => seq![
            "rename-open-handle"@,
            "rename-replace-existing"@,
            "symlink-alias-same-file"@,
        ],
        ScenarioKind::WordpressLike => seq![
            "wordpress-like"@,
            "wp-render-read-set"@,
            "wp-two-request"@,
            "wp-debug-log-switch"@,
            "wp-plugin-rewrite-while-included"@,
            "wp-shutdown-function"@,
            "wp-client-abort-shape"@,
            "stderr-pressure"@,
            "log-file-switch"@,
            "stdio-close-open-churn"@,
            "log-handle-left-open"@,
        ],
        ScenarioKind::Injection => seq![
            "inject-wrong-byte"@,
            "inject-wrong-file"@,
            "inject-short-write-model"@,
        ],
    }
}

/// A scenario is of the kind whose names have its own, and a name that is none of these is of
/// no kind.
pub proof fn law_scenarios_are_found_by_name(name: Seq<char>, kind: ScenarioKind)
    ensures
        kind_named(name) matches Some(found) ==> names_of(found).contains(name),
        names_of(kind).contains(name) ==> kind_named(name) is Some,
{
    let found = kind_named(name);
    if let Some(k) = found {
        let all = names_of(k);
        if k is Random {
            assert(name == all[0]);
        }
        if k is SharedInode {
            assert(name == all[0] || name == all[1] || name == all[2] || name == all[3] || name == all[4] || name == all[5] || name == all[6]);
        }
        if k is IndependentOffsets {
            assert(name == all[0]);
        }
        if k is OverlappingWrites {
            assert(name == all[0]);
        }
        if k is StrongerRights {
            assert(name == all[0] || name == all[1] || name == all[2]);
        }
        if k is FdReuse {
            assert(name == all[0] || name == all[1] || name == all[2] || name == all[3] || name == all[4] || name == all[5]);
        }
        if k is Append {
            assert(name == all[0] || name == all[1] || name == all[2] || name == all[3] || name == all[4]);
        }
        if k is UnlinkRecreate {
            assert(name == all[0] || name == all[1] || name == all[2]);
        }
        if k is Rename {
            assert(name == all[0] || name == all[1] || name == all[2]);
        }
        if k is WordpressLike {
            assert(name == all[0] || name == all[1] || name == all[2] || name == all[3] || name == all[4] || name == all[5] || name == all[6] || name == all[7] || name == all[8] || name == all[9] || name == all[10]);
        }
        if k is Injection {
            assert(name == all[0] || name == all[1] || name == all[2]);
        }
    }
}

/// Whether what a move needs is there: the handle that it works through is open, and the file
/// that it reads, unlinks, renames or opens without making it exists.
pub open spec fn ready(
    m: MoveView,
    open: Set<(usize, u64)>,
    exist: Set<Seq<char>>,
) -> bool {
    match m {
        MoveView::Open { path, flags, .. } => flags.create || exist.contains(path),
        MoveView::Close { worker, handle } => open.contains((worker, handle)),
        MoveView::Write { worker, handle, .. } => open.contains((worker, handle)),
        MoveView::ReadVerify { worker, handle, .. } => open.contains((worker, handle)),
        MoveView::SeekTo { worker, handle, .. } => open.contains((worker, handle)),
        MoveView::Append { worker, handle, .. } => open.contains((worker, handle)),
        MoveView::WriteLog { worker, handle, .. } => open.contains((worker, handle)),
        MoveView::AppendTogether { count } => forall|k: usize|
            1 <= k <= count ==> #[trigger] open.contains((k, 30u64)),
        MoveView::FreshVerify { path, .. } => exist.contains(path),
        MoveView::Unlink { path, .. } => exist.contains(path),
        MoveView::Rename { from, .. } => exist.contains(from),
        MoveView::SwitchLog { worker, sink } => sink matches LogSink::Handle(w, handle)
            && open.contains((w, handle)) && w == worker,
        MoveView::Stderr { .. } | MoveView::VerifyAll => true,
    }
}

/// The files that exist after a move.
pub open spec fn made_by(m: MoveView, exist: Set<Seq<char>>) -> Set<Seq<char>> {
    match m {
        MoveView::Open { path, .. } => exist.insert(path),
        MoveView::Unlink { path, .. } => exist.remove(path),
        MoveView::Rename { from, to, .. } => exist.remove(from).insert(to),
        _ => exist,
    }
}

/// The files that exist after the moves from `i` on.
pub open spec fn made(moves: Seq<MoveView>, i: nat, exist: Set<Seq<char>>) -> Set<Seq<char>>
    decreases moves.len() - i,
{
    if i >= moves.len() {
        exist
    } else {
        made(moves, i + 1, made_by(moves[i as int], exist))
    }
}

/// Whether what the moves from `i` on need is there, each after those before it.
pub open spec fn all_ready(
    moves: Seq<MoveView>,
    i: nat,
    open: Set<(usize, u64)>,
    exist: Set<Seq<char>>,
) -> bool
    decreases moves.len() - i,
{
    i >= moves.len() || (ready(moves[i as int], open, exist) && all_ready(
        moves,
        i + 1,
        left_by(moves[i as int], open),
        made_by(moves[i as int], exist),
    ))
}

proof fn lemma_ready_behind(
    a: Seq<MoveView>,
    b: Seq<MoveView>,
    j: nat,
    open: Set<(usize, u64)>,
    exist: Set<Seq<char>>,
)
    requires
        j <= b.len(),
    ensures
        all_ready(a + b, a.len() + j, open, exist) == all_ready(b, j, open, exist),
        made(a + b, a.len() + j, exist) == made(b, j, exist),
    decreases b.len() - j,
{
    if j < b.len() {
        assert((a + b)[(a.len() + j) as int] == b[j as int]);
        lemma_ready_behind(
            a,
            b,
            j + 1,
            left_by(b[j as int], open),
            made_by(b[j as int], exist),
        );
    }
}

proof fn lemma_ready_of_both(
    a: Seq<MoveView>,
    b: Seq<MoveView>,
    i: nat,
    open: Set<(usize, u64)>,
    exist: Set<Seq<char>>,
)
    requires
        i <= a.len(),
    ensures
        all_ready(a + b, i, open, exist) == (all_ready(a, i, open, exist) && all_ready(
            b,
            0,
            left_open(a, i, open),
            made(a, i, exist),
        )),
        made(a + b, i, exist) == made(b, 0, made(a, i, exist)),
    decreases a.len() - i,
{
    if i < a.len() {
        assert((a + b)[i as int] == a[i as int]);
        lemma_ready_of_both(
            a,
            b,
            i + 1,
            left_by(a[i as int], open),
            made_by(a[i as int], exist),
        );
    } else {
        lemma_ready_behind(a, b, 0, open, exist);
    }
}

proof fn lemma_ready_pushed(
    a: Seq<MoveView>,
    m: MoveView,
    open: Set<(usize, u64)>,
    exist: Set<Seq<char>>,
)
    ensures
        all_ready(a.push(m), 0, open, exist) == (all_ready(a, 0, open, exist) && ready(
            m,
            left_open(a, 0, open),
            made(a, 0, exist),
        )),
        made(a.push(m), 0, exist) == made_by(m, made(a, 0, exist)),
{
    lemma_ready_of_both(a, seq![m], 0, open, exist);
    assert(a + seq![m] =~= a.push(m));
    let o = left_open(a, 0, open);
    let e = made(a, 0, exist);
    assert(all_ready(seq![m], 1, left_by(m, o), made_by(m, e)));
    assert(made(seq![m], 1, made_by(m, e)) == made_by(m, e));
}

proof fn lemma_opens_ready(
    handle: u64,
    path: Seq<char>,
    flags: crate::world::OpenFlags,
    n: nat,
    open: Set<(usize, u64)>,
    exist: Set<Seq<char>>,
)
    requires
        flags.create,
        n >= 1,
    ensures
        all_ready(all_open(handle, path, flags, n), 0, open, exist),
        made(all_open(handle, path, flags, n), 0, exist) == exist.insert(path),
    decreases n,
{
    let before = all_open(handle, path, flags, (n - 1) as nat);
    if n > 1 {
        lemma_opens_ready(handle, path, flags, (n - 1) as nat, open, exist);
    } else {
        assert(before.len() == 0);
        assert(made(before, 0, exist) == exist);
        assert(all_ready(before, 0, open, exist));
    }
    lemma_ready_pushed(before, all_open(handle, path, flags, n).last(), open, exist);
    assert(made(all_open(handle, path, flags, n), 0, exist) =~= exist.insert(path));
}

proof fn lemma_closes_ready(
    handle: u64,
    n: nat,
    open: Set<(usize, u64)>,
    exist: Set<Seq<char>>,
)
    requires
        n <= usize::MAX,
        forall|k: usize| 1 <= k <= n ==> #[trigger] open.contains((k, handle)),
    ensures
        all_ready(all_close(handle, n), 0, open, exist),
        made(all_close(handle, n), 0, exist) == exist,
    decreases n,
{
    if n > 0 {
        let before = all_close(handle, (n - 1) as nat);
        lemma_closes_ready(handle, (n - 1) as nat, open, exist);
        lemma_all_close(handle, (n - 1) as nat, open);
        assert(open.contains((n as usize, handle)));
        lemma_ready_pushed(before, all_close(handle, n).last(), open, exist);
    }
}

proof fn lemma_writes_ready(
    c: RunConfig,
    n: nat,
    open: Set<(usize, u64)>,
    exist: Set<Seq<char>>,
)
    requires
        n <= usize::MAX,
        forall|k: usize| 1 <= k <= n ==> #[trigger] open.contains((k, 1u64)),
    ensures
        all_ready(all_write(c, n), 0, open, exist),
        made(all_write(c, n), 0, exist) == exist,
    decreases n,
{
    if n > 0 {
        lemma_writes_ready(c, (n - 1) as nat, open, exist);
        lemma_all_write(c, (n - 1) as nat, open);
        let before = all_write(c, (n - 1) as nat);
        let all = all_write(c, n);
        let two = all.skip(before.len() as int);
        assert(before + two =~= all);
        assert(open.contains((n as usize, 1u64)));
        lemma_ready_of_both(before, two, 0, open, exist);
        reveal_with_fuel(all_ready, 4);
        reveal_with_fuel(made, 4);
        assert(two.len() == 2);
    }
}

proof fn lemma_offsets_ready(c: RunConfig, n: nat, exist: Set<Seq<char>>)
    requires
        n <= usize::MAX,
    ensures
        all_ready(all_offsets(c, n), 0, Set::empty(), exist),
    decreases n,
{
    if n > 0 {
        let none = Set::<(usize, u64)>::empty();
        lemma_offsets_ready(c, (n - 1) as nat, exist);
        lemma_all_offsets(c, (n - 1) as nat, none);
        let before = all_offsets(c, (n - 1) as nat);
        let all = all_offsets(c, n);
        let five = all.skip(before.len() as int);
        assert(before + five =~= all);
        lemma_ready_of_both(before, five, 0, none, exist);
        reveal_with_fuel(all_ready, 7);
        assert(five.len() == 5);
    }
}

proof fn lemma_overlaps_ready(
    c: RunConfig,
    n: nat,
    open: Set<(usize, u64)>,
    exist: Set<Seq<char>>,
)
    requires
        1 <= n <= usize::MAX,
    ensures
        all_ready(all_overlap(c, n), 0, open, exist),
        made(all_overlap(c, n), 0, exist) == exist.insert(crate::moves::numbered_file(c, 0)),
    decreases n,
{
    let before = all_overlap(c, (n - 1) as nat);
    if n > 1 {
        lemma_overlaps_ready(c, (n - 1) as nat, open, exist);
    } else {
        assert(before.len() == 0);
        assert(made(before, 0, exist) == exist);
        assert(all_ready(before, 0, open, exist));
    }
    let all = all_overlap(c, n);
    let two = all.skip(before.len() as int);
    assert(before + two =~= all);
    lemma_ready_of_both(before, two, 0, open, exist);
    reveal_with_fuel(all_ready, 4);
    reveal_with_fuel(made, 4);
    assert(two.len() == 2);
    assert(made(all, 0, exist) =~= exist.insert(crate::moves::numbered_file(c, 0)));
}

proof fn lemma_fillers_ready(
    c: RunConfig,
    n: nat,
    open: Set<(usize, u64)>,
    exist: Set<Seq<char>>,
    path: Seq<char>,
)
    requires
        n <= 16,
        forall|h: u64| h >= 100 ==> !open.contains((1usize, h)),
        exist.contains(path),
    ensures
        all_ready(fillers(c, n), 0, open, exist),
        made(fillers(c, n), 0, exist).contains(path),
    decreases n,
{
    if n > 0 {
        lemma_fillers_ready(c, (n - 1) as nat, open, exist, path);
        lemma_fillers(c, (n - 1) as nat, open);
        let before = fillers(c, (n - 1) as nat);
        let all = fillers(c, n);
        let two = all.skip(before.len() as int);
        assert(before + two =~= all);
        lemma_ready_of_both(before, two, 0, open, exist);
        reveal_with_fuel(all_ready, 4);
        reveal_with_fuel(made, 4);
        assert(two.len() == 2);
    }
}

proof fn lemma_appends_ready(n: nat, open: Set<(usize, u64)>, exist: Set<Seq<char>>)
    requires
        n <= usize::MAX,
        forall|k: usize| 1 <= k <= n ==> #[trigger] open.contains((k, 30u64)),
    ensures
        all_ready(all_append(n), 0, open, exist),
        made(all_append(n), 0, exist) == exist,
    decreases n,
{
    if n > 0 {
        lemma_appends_ready((n - 1) as nat, open, exist);
        lemma_all_append((n - 1) as nat, open);
        assert(open.contains((n as usize, 30u64)));
        lemma_ready_pushed(all_append((n - 1) as nat), all_append(n).last(), open, exist);
    }
}

/// Every scenario has what it needs when it needs it, whatever files there are before: no move
/// goes through a handle that its worker has not open, and none reads, unlinks, renames or opens
/// a file that is not there and that it does not make.
pub proof fn law_scenarios_have_what_they_need(
    c: RunConfig,
    kind: ScenarioKind,
    exist: Set<Seq<char>>,
)
    requires
        c.wf(),
    ensures
        all_ready(moves_of(c, kind), 0, Set::empty(), exist),
{
    let none = Set::<(usize, u64)>::empty();
    let n = c.workers as nat;
    let moves = moves_of(c, kind);
    match kind {
        ScenarioKind::Random => {},
        ScenarioKind::SharedInode | ScenarioKind::Injection => {
            let path = crate::moves::numbered_file(c, 0);
            let flags = crate::moves::writing();
            let opens = all_open(1, path, flags, n);
            let writes = all_write(c, n);
            let fresh = MoveView::FreshVerify { worker: 1, path };
            let open = none.union(everyones(1, n));
            lemma_all_open(1, path, flags, n, none);
            lemma_opens_ready(1, path, flags, n, none, exist);
            lemma_ready_of_both(opens, writes, 0, none, exist);
            lemma_left_of_both(opens, writes, 0, none);
            lemma_writes_ready(c, n, open, exist.insert(path));
            lemma_all_write(c, n, open);
            lemma_ready_pushed(opens + writes, fresh, none, exist);
            lemma_left_pushed(opens + writes, fresh, none);
            lemma_ready_of_both(
                (opens + writes).push(fresh),
                all_close(1, n),
                0,
                none,
                exist,
            );
            lemma_closes_ready(1, n, open, exist.insert(path));
        },
        ScenarioKind::IndependentOffsets => {
            lemma_offsets_ready(c, n, exist);
            lemma_ready_pushed(all_offsets(c, n), MoveView::VerifyAll, none, exist);
        },
        ScenarioKind::OverlappingWrites => {
            let path = crate::moves::numbered_file(c, 0);
            let fresh = MoveView::FreshVerify { worker: 1, path };
            let open = none.union(everyones(3, n));
            lemma_all_overlap(c, n, none);
            lemma_overlaps_ready(c, n, none, exist);
            lemma_ready_pushed(all_overlap(c, n), fresh, none, exist);
            lemma_left_pushed(all_overlap(c, n), fresh, none);
            lemma_ready_of_both(
                all_overlap(c, n).push(fresh),
                all_close(3, n),
                0,
                none,
                exist,
            );
            lemma_closes_ready(3, n, open, exist.insert(path));
        },
        ScenarioKind::StrongerRights => {
            reveal_with_fuel(all_ready, 12);
        },
        ScenarioKind::FdReuse => {
            let a = crate::moves::under_root(c, "a.log"@);
            let b = crate::moves::under_root(c, "b.log"@);
            let peer = crate::moves::peer(c);
            let first = seq![
                MoveView::Open { worker: 1, handle: 20, path: a, flags: crate::moves::writing() },
                MoveView::Close { worker: 1, handle: 20 },
                MoveView::Open { worker: peer, handle: 21, path: b, flags: crate::moves::writing() },
                MoveView::Write {
                    worker: peer,
                    handle: 21,
                    offset: 0,
                    mark: crate::moves::mark(2, 21, 2, 128),
                },
            ];
            let many = crate::scenario::smaller(c.handles as int, 16) as nat;
            let open = none.insert((peer, 21u64));
            assert(left_open(first, 0, none) =~= open) by {
                reveal_with_fuel(left_open, 6);
            }
            assert(all_ready(first, 0, none, exist)) by {
                reveal_with_fuel(all_ready, 6);
            }
            let there = made(first, 0, exist);
            assert(there.contains(b)) by {
                reveal_with_fuel(made, 6);
            }
            lemma_ready_of_both(first, fillers(c, many), 0, none, exist);
            lemma_left_of_both(first, fillers(c, many), 0, none);
            lemma_fillers(c, many, open);
            lemma_fillers_ready(c, many, open, there, b);
            let fresh = MoveView::FreshVerify { worker: 1, path: b };
            let close = MoveView::Close { worker: peer, handle: 21 };
            lemma_ready_pushed(first + fillers(c, many), fresh, none, exist);
            lemma_left_pushed(first + fillers(c, many), fresh, none);
            lemma_ready_pushed((first + fillers(c, many)).push(fresh), close, none, exist);
        },
        ScenarioKind::Append => {
            let path = crate::moves::under_root(c, "append.log"@);
            let flags = crate::moves::appending();
            let opens = all_open(30, path, flags, n);
            let open = none.union(everyones(30, n));
            let there = exist.insert(path);
            let middle = if c.parallelism > 1 && c.workers > 1 {
                seq![
                    MoveView::AppendTogether {
                        count: crate::scenario::smaller(
                            c.workers as int,
                            c.parallelism as int,
                        ) as usize,
                    },
                ]
            } else {
                all_append(n)
            };
            let fresh = MoveView::FreshVerify { worker: 1, path };
            lemma_all_open(30, path, flags, n, none);
            lemma_opens_ready(30, path, flags, n, none, exist);
            lemma_ready_of_both(opens, middle, 0, none, exist);
            lemma_left_of_both(opens, middle, 0, none);
            lemma_all_append(n, open);
            lemma_appends_ready(n, open, there);
            assert(left_open(middle, 0, open) == open) by {
                reveal_with_fuel(left_open, 3);
            }
            assert(all_ready(middle, 0, open, there) && made(middle, 0, there) == there) by {
                reveal_with_fuel(all_ready, 3);
                reveal_with_fuel(made, 3);
            }
            lemma_ready_pushed(opens + middle, fresh, none, exist);
            lemma_left_pushed(opens + middle, fresh, none);
            lemma_ready_of_both(
                (opens + middle).push(fresh),
                all_close(30, n),
                0,
                none,
                exist,
            );
            lemma_closes_ready(30, n, open, there);
        },
        ScenarioKind::UnlinkRecreate => {
            reveal_with_fuel(all_ready, 10);
        },
        ScenarioKind::Rename => {
            reveal_with_fuel(all_ready, 7);
        },
        ScenarioKind::WordpressLike => {
            reveal_with_fuel(all_ready, 18);
        },
    }
}

/// A file that is opened again to be read still gives what was written first: what another
/// worker writes in between stands right behind it.
pub proof fn law_stronger_rights_keep_what_was_written(c: RunConfig, step: u64)
    requires
        c.wf(),
    ensures
        ({
            let moves = moves_of(c, ScenarioKind::StrongerRights);
            let first = moves[1];
            let second = moves[5];
            let read = moves[6];
            &&& moves[0] is Open && moves[3] is Open && moves[4] is Open
            &&& moves[3]->Open_path == moves[0]->Open_path
            &&& moves[4]->Open_path == moves[0]->Open_path
            &&& moves[3]->flags.read && !moves[3]->flags.write && !moves[3]->flags.truncate
            &&& moves[4]->flags.write && !moves[4]->flags.truncate
            &&& first is Write && first->Write_offset == 0
            &&& second is Write && second->Write_offset == marker_bytes(
                c,
                step,
                first->Write_mark,
            ).len()
            &&& second->Write_handle == moves[4]->Open_handle
            &&& read is ReadVerify && read->ReadVerify_offset == 0
            &&& read->ReadVerify_handle == moves[3]->Open_handle
            &&& read->ReadVerify_size == marker_bytes(c, step, first->Write_mark).len()
            &&& moves[7] is FreshVerify && moves[7]->FreshVerify_path == moves[0]->Open_path
        }),
{
}

/// Workers with places of their own write a hundred and twenty-eight bytes apart, each no more
/// than sixty-four, seek to their place and read it.
pub proof fn law_own_places_are_apart(c: RunConfig, k: int, step: u64)
    requires
        c.wf(),
        0 <= k < c.workers,
    ensures
        ({
            let moves = moves_of(c, ScenarioKind::IndependentOffsets);
            let w = moves[5 * k + 1];
            &&& moves.len() == 5 * c.workers + 1
            &&& moves[5 * k] is Open && moves[5 * k]->Open_worker == k + 1
            &&& w is Write && w->Write_worker == k + 1 && w->Write_offset == 128 * k
            &&& marker_bytes(c, step, w->Write_mark).len() <= 64
            &&& moves[5 * k + 2] is SeekTo && moves[5 * k + 2]->SeekTo_offset == 128 * k
            &&& moves[5 * k + 3] is ReadVerify && moves[5 * k + 3]->ReadVerify_offset == 128 * k
            &&& moves[5 * k + 3]->ReadVerify_size == 64
            &&& moves[5 * k + 4] is Close && moves[5 * k + 4]->Close_worker == k + 1
            &&& moves.last() is VerifyAll
        }),
{
    lemma_offset_moves(c, c.workers as nat, k);
    let all = all_offsets(c, c.workers as nat);
    let moves = moves_of(c, ScenarioKind::IndependentOffsets);
    assert(forall|i: int| 0 <= i < all.len() ==> moves[i] == all[i]);
}

proof fn lemma_offset_moves(c: RunConfig, n: nat, k: int)
    requires
        c.wf(),
        0 <= k < n,
        n <= c.workers,
    ensures
        all_offsets(c, n).len() == 5 * n,
        ({
            let all = all_offsets(c, n);
            let w = (k + 1) as usize;
            &&& all[5 * k] is Open && all[5 * k]->Open_worker == w
            &&& all[5 * k + 1] is Write && all[5 * k + 1]->Write_worker == w
            &&& all[5 * k + 1]->Write_offset == 128 * k
            &&& all[5 * k + 1]->Write_mark == (Mark {
                worker: w,
                handle: 2,
                path_id: 0,
                min_size: 64,
            })
            &&& all[5 * k + 2] is SeekTo && all[5 * k + 2]->SeekTo_offset == 128 * k
            &&& all[5 * k + 3] is ReadVerify && all[5 * k + 3]->ReadVerify_offset == 128 * k
            &&& all[5 * k + 3]->ReadVerify_size == 64
            &&& all[5 * k + 4] is Close && all[5 * k + 4]->Close_worker == w
        }),
    decreases n,
{
    let top = crate::scenario::larger(
        marker_size(c, crate::scenario::shared_size(c)) as int,
        128,
    );
    assert(k * 128 <= c.workers * top) by (nonlinear_arith)
        requires
            0 <= k < c.workers,
            128 <= top,
    ;
    if k < n - 1 {
        lemma_offset_moves(c, (n - 1) as nat, k);
    } else if n > 1 {
        lemma_offset_moves(c, (n - 1) as nat, n - 2);
    } else {
        assert(all_offsets(c, 0).len() == 0);
    }
}

} // verus!
