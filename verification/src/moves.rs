//! The moves of a round of each scenario.

use vstd::prelude::*;
use vstd::string::*;

use crate::paths::{join, joined_path};
use crate::scenario::{
    larger, marker_size, move_views, shared_size, smaller, Mark, Move, MoveView, RunConfig,
    ScenarioKind,
};
use crate::text::{dec, push_dec};
use crate::worker::LogSink;
use crate::world::OpenFlags;

verus! {

pub open spec fn reading() -> OpenFlags {
    OpenFlags {
        read: true,
        write: false,
        append: false,
        truncate: false,
        create: false,
        create_new: false,
    }
}

pub open spec fn writing() -> OpenFlags {
    OpenFlags {
        read: true,
        write: true,
        append: false,
        truncate: false,
        create: true,
        create_new: false,
    }
}

pub open spec fn replacing() -> OpenFlags {
    OpenFlags {
        read: true,
        write: true,
        append: false,
        truncate: true,
        create: true,
        create_new: false,
    }
}

pub open spec fn appending() -> OpenFlags {
    OpenFlags {
        read: true,
        write: false,
        append: true,
        truncate: false,
        create: true,
        create_new: false,
    }
}

pub open spec fn under_root(c: RunConfig, name: Seq<char>) -> Seq<char> {
    joined_path(c.root@, name)
}

pub open spec fn numbered_file(c: RunConfig, id: nat) -> Seq<char> {
    under_root(c, "file-"@ + dec(id) + ".dat"@)
}

pub open spec fn filler_file(c: RunConfig, i: nat) -> Seq<char> {
    under_root(c, "filler-"@ + dec(i) + ".tmp"@)
}

/// The second worker, or the only one.
pub open spec fn peer(c: RunConfig) -> usize {
    smaller(2, c.workers as int) as usize
}

pub open spec fn mark(worker: usize, handle: u64, path_id: usize, min_size: usize) -> Mark {
    Mark { worker, handle, path_id, min_size }
}

/// The first `n` workers open a file.
pub open spec fn all_open(handle: u64, path: Seq<char>, flags: OpenFlags, n: nat) -> Seq<MoveView>
    decreases n,
{
    if n == 0 {
        Seq::empty()
    } else {
        all_open(handle, path, flags, (n - 1) as nat).push(
            MoveView::Open { worker: n as usize, handle, path, flags },
        )
    }
}

/// The first `n` workers close a handle.
pub open spec fn all_close(handle: u64, n: nat) -> Seq<MoveView>
    decreases n,
{
    if n == 0 {
        Seq::empty()
    } else {
        all_close(handle, (n - 1) as nat).push(MoveView::Close { worker: n as usize, handle })
    }
}

/// The first `n` workers write side by side, and read what they wrote.
pub open spec fn all_write(c: RunConfig, n: nat) -> Seq<MoveView>
    decreases n,
{
    if n == 0 {
        Seq::empty()
    } else {
        let size = marker_size(c, shared_size(c));
        let offset = ((n - 1) * size) as u64;
        all_write(c, (n - 1) as nat).push(
            MoveView::Write {
                worker: n as usize,
                handle: 1,
                offset,
                mark: mark(n as usize, 1, 0, shared_size(c)),
            },
        ).push(MoveView::ReadVerify { worker: n as usize, handle: 1, offset, size })
    }
}

pub open spec fn shared_inode_moves(c: RunConfig) -> Seq<MoveView> {
    let path = numbered_file(c, 0);
    let n = c.workers as nat;
    (all_open(1, path, writing(), n) + all_write(c, n)).push(
        MoveView::FreshVerify { worker: 1, path },
    ) + all_close(1, n)
}

/// The first `n` workers write, move and read, one after the other, each at its own place.
pub open spec fn all_offsets(c: RunConfig, n: nat) -> Seq<MoveView>
    decreases n,
{
    if n == 0 {
        Seq::empty()
    } else {
        let w = n as usize;
        let offset = ((n - 1) * 128) as u64;
        all_offsets(c, (n - 1) as nat).push(
            MoveView::Open { worker: w, handle: 2, path: numbered_file(c, 0), flags: writing() },
        ).push(
            MoveView::Write { worker: w, handle: 2, offset, mark: mark(w, 2, 0, 64) },
        ).push(MoveView::SeekTo { worker: w, handle: 2, offset }).push(
            MoveView::ReadVerify { worker: w, handle: 2, offset, size: 64 },
        ).push(MoveView::Close { worker: w, handle: 2 })
    }
}

pub open spec fn independent_offsets_moves(c: RunConfig) -> Seq<MoveView> {
    all_offsets(c, c.workers as nat).push(MoveView::VerifyAll)
}

/// The first `n` workers write at the start of the file, one after the other.
pub open spec fn all_overlap(c: RunConfig, n: nat) -> Seq<MoveView>
    decreases n,
{
    if n == 0 {
        Seq::empty()
    } else {
        let w = n as usize;
        all_overlap(c, (n - 1) as nat).push(
            MoveView::Open { worker: w, handle: 3, path: numbered_file(c, 0), flags: writing() },
        ).push(MoveView::Write { worker: w, handle: 3, offset: 0, mark: mark(w, 3, 0, 256) })
    }
}

pub open spec fn overlapping_writes_moves(c: RunConfig) -> Seq<MoveView> {
    all_overlap(c, c.workers as nat).push(
        MoveView::FreshVerify { worker: 1, path: numbered_file(c, 0) },
    ) + all_close(3, c.workers as nat)
}

pub open spec fn stronger_rights_moves(c: RunConfig) -> Seq<MoveView> {
    let path = numbered_file(c, (1usize % c.files) as nat);
    let size = marker_size(c, 256);
    seq![
        MoveView::Open { worker: 1, handle: 10, path, flags: writing() },
        MoveView::Write { worker: 1, handle: 10, offset: 0, mark: mark(1, 10, 1, 256) },
        MoveView::Close { worker: 1, handle: 10 },
        MoveView::Open { worker: 1, handle: 11, path, flags: reading() },
        MoveView::Open { worker: peer(c), handle: 12, path, flags: writing() },
        MoveView::Write {
            worker: peer(c),
            handle: 12,
            offset: size as u64,
            mark: mark(2, 12, 1, 128),
        },
        MoveView::ReadVerify { worker: 1, handle: 11, offset: 0, size },
        MoveView::FreshVerify { worker: peer(c), path },
        MoveView::Close { worker: 1, handle: 11 },
        MoveView::Close { worker: peer(c), handle: 12 },
    ]
}

/// The first `n` files that are opened and closed in between.
pub open spec fn fillers(c: RunConfig, n: nat) -> Seq<MoveView>
    decreases n,
{
    if n == 0 {
        Seq::empty()
    } else {
        let handle = (100 + n - 1) as u64;
        fillers(c, (n - 1) as nat).push(
            MoveView::Open {
                worker: 1,
                handle,
                path: filler_file(c, (n - 1) as nat),
                flags: writing(),
            },
        ).push(MoveView::Close { worker: 1, handle })
    }
}

pub open spec fn fd_reuse_moves(c: RunConfig) -> Seq<MoveView> {
    let b = under_root(c, "b.log"@);
    (seq![
        MoveView::Open {
            worker: 1,
            handle: 20,
            path: under_root(c, "a.log"@),
            flags: writing(),
        },
        MoveView::Close { worker: 1, handle: 20 },
        MoveView::Open { worker: peer(c), handle: 21, path: b, flags: writing() },
        MoveView::Write { worker: peer(c), handle: 21, offset: 0, mark: mark(2, 21, 2, 128) },
    ] + fillers(c, smaller(c.handles as int, 16) as nat)).push(
        MoveView::FreshVerify { worker: 1, path: b },
    ).push(MoveView::Close { worker: peer(c), handle: 21 })
}

/// The first `n` workers append, one after the other.
pub open spec fn all_append(n: nat) -> Seq<MoveView>
    decreases n,
{
    if n == 0 {
        Seq::empty()
    } else {
        all_append((n - 1) as nat).push(
            MoveView::Append { worker: n as usize, handle: 30, mark: mark(n as usize, 30, 3, 96) },
        )
    }
}

pub open spec fn append_moves(c: RunConfig) -> Seq<MoveView> {
    let path = under_root(c, "append.log"@);
    let n = c.workers as nat;
    (all_open(30, path, appending(), n) + if c.parallelism > 1 && c.workers > 1 {
        seq![
            MoveView::AppendTogether {
                count: smaller(c.workers as int, c.parallelism as int) as usize,
            },
        ]
    } else {
        all_append(n)
    }).push(MoveView::FreshVerify { worker: 1, path }) + all_close(30, n)
}

pub open spec fn unlink_recreate_moves(c: RunConfig) -> Seq<MoveView> {
    let path = under_root(c, "target.txt"@);
    seq![
        MoveView::Open { worker: 1, handle: 40, path, flags: writing() },
        MoveView::Write { worker: 1, handle: 40, offset: 0, mark: mark(1, 40, 4, 96) },
        MoveView::Unlink { worker: peer(c), path },
        MoveView::Open { worker: peer(c), handle: 41, path, flags: replacing() },
        MoveView::Write { worker: peer(c), handle: 41, offset: 0, mark: mark(2, 41, 4, 96) },
        MoveView::FreshVerify { worker: 1, path },
        MoveView::Close { worker: 1, handle: 40 },
        MoveView::Close { worker: peer(c), handle: 41 },
    ]
}

pub open spec fn rename_moves(c: RunConfig) -> Seq<MoveView> {
    let a = under_root(c, "rename-a.txt"@);
    let b = under_root(c, "rename-b.txt"@);
    seq![
        MoveView::Open { worker: 1, handle: 50, path: a, flags: writing() },
        MoveView::Write { worker: 1, handle: 50, offset: 0, mark: mark(1, 50, 5, 128) },
        MoveView::Rename { worker: peer(c), from: a, to: b },
        MoveView::FreshVerify { worker: 1, path: b },
        MoveView::Close { worker: 1, handle: 50 },
    ]
}

pub open spec fn wordpress_like_moves(c: RunConfig) -> Seq<MoveView> {
    let plugin = under_root(c, "wp-content/plugins/plugin.php"@);
    let theme = under_root(c, "wp-content/themes/theme.php"@);
    let log = under_root(c, "wp-content/debug.log"@);
    seq![
        MoveView::Open { worker: 1, handle: 60, path: plugin, flags: writing() },
        MoveView::Write { worker: 1, handle: 60, offset: 0, mark: mark(1, 60, 6, 128) },
        MoveView::Close { worker: 1, handle: 60 },
        MoveView::Open { worker: 1, handle: 61, path: plugin, flags: reading() },
        MoveView::Open { worker: peer(c), handle: 62, path: theme, flags: writing() },
        MoveView::Write { worker: peer(c), handle: 62, offset: 0, mark: mark(2, 62, 7, 128) },
        MoveView::Open { worker: 1, handle: 63, path: log, flags: appending() },
        MoveView::SwitchLog { worker: 1, sink: LogSink::Handle(1, 63) },
        MoveView::WriteLog { worker: 1, handle: 63, mark: mark(1, 63, 8, 96) },
        MoveView::Stderr { worker: peer(c) },
        MoveView::FreshVerify { worker: peer(c), path: plugin },
        MoveView::FreshVerify { worker: 1, path: theme },
        MoveView::FreshVerify { worker: 1, path: log },
        MoveView::Close { worker: 1, handle: 61 },
        MoveView::Close { worker: peer(c), handle: 62 },
        MoveView::Close { worker: 1, handle: 63 },
    ]
}

/// The moves of one round; a random run takes the kind that it drew.
pub open spec fn moves_of(c: RunConfig, kind: ScenarioKind) -> Seq<MoveView> {
    match kind {
        ScenarioKind::Random => Seq::empty(),
        ScenarioKind::SharedInode | ScenarioKind::Injection => shared_inode_moves(c),
        ScenarioKind::IndependentOffsets => independent_offsets_moves(c),
        ScenarioKind::OverlappingWrites => overlapping_writes_moves(c),
        ScenarioKind::StrongerRights => stronger_rights_moves(c),
        ScenarioKind::FdReuse => fd_reuse_moves(c),
        ScenarioKind::Append => append_moves(c),
        ScenarioKind::UnlinkRecreate => unlink_recreate_moves(c),
        ScenarioKind::Rename => rename_moves(c),
        ScenarioKind::WordpressLike => wordpress_like_moves(c),
    }
}

fn push(moves: &mut Vec<Move>, m: Move)
    ensures
        move_views(final(moves)@) == move_views(old(moves)@).push(m@),
{
    let ghost before = move_views(moves@);
    moves.push(m);
    assert(move_views(moves@) =~= before.push(m@));
}

fn new_mark(worker: usize, handle: u64, path_id: usize, min_size: usize) -> (m: Mark)
    ensures
        m == mark(worker, handle, path_id, min_size),
{
    Mark { worker, handle, path_id, min_size }
}

impl RunConfig {
    fn in_root(&self, name: &str) -> (path: String)
        ensures
            path@ == under_root(*self, name@),
    {
        join(self.root.as_str(), name)
    }

    /// The path of a numbered file.
    pub fn path(&self, id: usize) -> (path: String)
        ensures
            path@ == numbered_file(*self, id as nat),
    {
        let mut name = "file-".to_string();
        push_dec(&mut name, id as u64);
        name.append(".dat");
        self.in_root(name.as_str())
    }

    fn filler(&self, i: usize) -> (path: String)
        ensures
            path@ == filler_file(*self, i as nat),
    {
        let mut name = "filler-".to_string();
        push_dec(&mut name, i as u64);
        name.append(".tmp");
        self.in_root(name.as_str())
    }

    fn second_worker(&self) -> (n: usize)
        ensures
            n == peer(*self),
    {
        if self.workers < 2 {
            self.workers
        } else {
            2
        }
    }

    fn push_opens(&self, moves: &mut Vec<Move>, handle: u64, path: &str, flags: OpenFlags)
        ensures
            move_views(final(moves)@) == move_views(old(moves)@) + all_open(
                handle,
                path@,
                flags,
                self.workers as nat,
            ),
    {
        let ghost start = move_views(moves@);
        let mut w: usize = 0;
        assert(move_views(moves@) =~= start + all_open(handle, path@, flags, 0));
        while w < self.workers
            invariant
                w <= self.workers,
                move_views(moves@) == start + all_open(handle, path@, flags, w as nat),
            decreases self.workers - w,
        {
            w = w + 1;
            push(moves, Move::Open { worker: w, handle, path: path.to_string(), flags });
            assert(move_views(moves@) =~= start + all_open(handle, path@, flags, w as nat));
        }
    }

    fn push_closes(&self, moves: &mut Vec<Move>, handle: u64)
        ensures
            move_views(final(moves)@) == move_views(old(moves)@) + all_close(
                handle,
                self.workers as nat,
            ),
    {
        let ghost start = move_views(moves@);
        let mut w: usize = 0;
        assert(move_views(moves@) =~= start + all_close(handle, 0));
        while w < self.workers
            invariant
                w <= self.workers,
                move_views(moves@) == start + all_close(handle, w as nat),
            decreases self.workers - w,
        {
            w = w + 1;
            push(moves, Move::Close { worker: w, handle });
            assert(move_views(moves@) =~= start + all_close(handle, w as nat));
        }
    }

    fn shared_inode(&self) -> (moves: Vec<Move>)
        requires
            self.wf(),
        ensures
            move_views(moves@) == shared_inode_moves(*self),
    {
        let path = self.path(0);
        let mut moves: Vec<Move> = Vec::new();
        assert(move_views(moves@) =~= Seq::empty());
        self.push_opens(&mut moves, 1, path.as_str(), OpenFlags::read_write_create());
        let asked: usize = if self.opsize_min < 128 {
            128
        } else {
            self.opsize_min
        };
        let size: usize = self.size_of_marker(asked);
        let ghost start = move_views(moves@);
        let mut w: usize = 0;
        assert(move_views(moves@) =~= start + all_write(*self, 0));
        while w < self.workers
            invariant
                self.wf(),
                w <= self.workers,
                asked == shared_size(*self),
                size == marker_size(*self, asked),
                move_views(moves@) == start + all_write(*self, w as nat),
            decreases self.workers - w,
        {
            proof {
                lemma_fits(w as int, size as int, self.workers as int, larger(size as int, 128));
            }
            let offset: u64 = (w * size) as u64;
            w = w + 1;
            push(
                &mut moves,
                Move::Write { worker: w, handle: 1, offset, mark: new_mark(w, 1, 0, asked) },
            );
            push(&mut moves, Move::ReadVerify { worker: w, handle: 1, offset, size });
            assert(move_views(moves@) =~= start + all_write(*self, w as nat));
        }
        push(&mut moves, Move::FreshVerify { worker: 1, path });
        self.push_closes(&mut moves, 1);
        assert(move_views(moves@) =~= shared_inode_moves(*self));
        moves
    }

    fn independent_offsets(&self) -> (moves: Vec<Move>)
        requires
            self.wf(),
        ensures
            move_views(moves@) == independent_offsets_moves(*self),
    {
        let mut moves: Vec<Move> = Vec::new();
        let mut w: usize = 0;
        assert(move_views(moves@) =~= all_offsets(*self, 0));
        while w < self.workers
            invariant
                self.wf(),
                w <= self.workers,
                move_views(moves@) == all_offsets(*self, w as nat),
            decreases self.workers - w,
        {
            proof {
                let size = marker_size(*self, shared_size(*self)) as int;
                lemma_fits(w as int, 128, self.workers as int, larger(size, 128));
            }
            let offset: u64 = (w * 128) as u64;
            w = w + 1;
            push(
                &mut moves,
                Move::Open {
                    worker: w,
                    handle: 2,
                    path: self.path(0),
                    flags: OpenFlags::read_write_create(),
                },
            );
            push(
                &mut moves,
                Move::Write { worker: w, handle: 2, offset, mark: new_mark(w, 2, 0, 64) },
            );
            push(&mut moves, Move::SeekTo { worker: w, handle: 2, offset });
            push(&mut moves, Move::ReadVerify { worker: w, handle: 2, offset, size: 64 });
            push(&mut moves, Move::Close { worker: w, handle: 2 });
            assert(move_views(moves@) =~= all_offsets(*self, w as nat));
        }
        push(&mut moves, Move::VerifyAll);
        moves
    }

    fn overlapping_writes(&self) -> (moves: Vec<Move>)
        ensures
            move_views(moves@) == overlapping_writes_moves(*self),
    {
        let mut moves: Vec<Move> = Vec::new();
        let mut w: usize = 0;
        assert(move_views(moves@) =~= all_overlap(*self, 0));
        while w < self.workers
            invariant
                w <= self.workers,
                move_views(moves@) == all_overlap(*self, w as nat),
            decreases self.workers - w,
        {
            w = w + 1;
            push(
                &mut moves,
                Move::Open {
                    worker: w,
                    handle: 3,
                    path: self.path(0),
                    flags: OpenFlags::read_write_create(),
                },
            );
            push(
                &mut moves,
                Move::Write { worker: w, handle: 3, offset: 0, mark: new_mark(w, 3, 0, 256) },
            );
        }
        push(&mut moves, Move::FreshVerify { worker: 1, path: self.path(0) });
        self.push_closes(&mut moves, 3);
        moves
    }

    fn stronger_rights(&self) -> (moves: Vec<Move>)
        requires
            self.wf(),
        ensures
            move_views(moves@) == stronger_rights_moves(*self),
    {
        let path = self.path(1 % self.files);
        let size: usize = self.size_of_marker(256);
        let second: usize = self.second_worker();
        let create = OpenFlags::read_write_create();
        let mut m: Vec<Move> = Vec::new();
        push(&mut m, Move::Open { worker: 1, handle: 10, path: path.clone(), flags: create });
        push(
            &mut m,
            Move::Write { worker: 1, handle: 10, offset: 0, mark: new_mark(1, 10, 1, 256) },
        );
        push(&mut m, Move::Close { worker: 1, handle: 10 });
        push(
            &mut m,
            Move::Open {
                worker: 1,
                handle: 11,
                path: path.clone(),
                flags: OpenFlags::read_only(),
            },
        );
        push(&mut m, Move::Open { worker: second, handle: 12, path: path.clone(), flags: create });
        push(
            &mut m,
            Move::Write {
                worker: second,
                handle: 12,
                offset: size as u64,
                mark: new_mark(2, 12, 1, 128),
            },
        );
        push(&mut m, Move::ReadVerify { worker: 1, handle: 11, offset: 0, size });
        push(&mut m, Move::FreshVerify { worker: second, path });
        push(&mut m, Move::Close { worker: 1, handle: 11 });
        push(&mut m, Move::Close { worker: second, handle: 12 });
        assert(move_views(m@) =~= stronger_rights_moves(*self));
        m
    }

    fn fd_reuse(&self) -> (moves: Vec<Move>)
        ensures
            move_views(moves@) == fd_reuse_moves(*self),
    {
        let a = self.in_root("a.log");
        let b = self.in_root("b.log");
        let second: usize = self.second_worker();
        let create = OpenFlags::read_write_create();
        let mut m: Vec<Move> = Vec::new();
        push(&mut m, Move::Open { worker: 1, handle: 20, path: a, flags: create });
        push(&mut m, Move::Close { worker: 1, handle: 20 });
        push(&mut m, Move::Open { worker: second, handle: 21, path: b.clone(), flags: create });
        push(
            &mut m,
            Move::Write { worker: second, handle: 21, offset: 0, mark: new_mark(2, 21, 2, 128) },
        );
        let ghost start = move_views(m@);
        let count: usize = if self.handles < 16 {
            self.handles
        } else {
            16
        };
        let mut i: usize = 0;
        assert(move_views(m@) =~= start + fillers(*self, 0));
        while i < count
            invariant
                i <= count,
                count <= 16,
                create == writing(),
                move_views(m@) == start + fillers(*self, i as nat),
            decreases count - i,
        {
            let handle: u64 = 100 + i as u64;
            push(&mut m, Move::Open { worker: 1, handle, path: self.filler(i), flags: create });
            push(&mut m, Move::Close { worker: 1, handle });
            i = i + 1;
            assert(move_views(m@) =~= start + fillers(*self, i as nat));
        }
        push(&mut m, Move::FreshVerify { worker: 1, path: b });
        push(&mut m, Move::Close { worker: second, handle: 21 });
        assert(move_views(m@) =~= fd_reuse_moves(*self));
        m
    }

    fn append(&self) -> (moves: Vec<Move>)
        ensures
            move_views(moves@) == append_moves(*self),
    {
        let path = self.in_root("append.log");
        let mut m: Vec<Move> = Vec::new();
        assert(move_views(m@) =~= Seq::empty());
        self.push_opens(&mut m, 30, path.as_str(), OpenFlags::append_create());
        let ghost start = move_views(m@);
        if self.parallelism > 1 && self.workers > 1 {
            let count: usize = if self.parallelism < self.workers {
                self.parallelism
            } else {
                self.workers
            };
            push(&mut m, Move::AppendTogether { count });
            assert(move_views(m@) =~= start + seq![MoveView::AppendTogether { count }]);
        } else {
            let mut w: usize = 0;
            assert(move_views(m@) =~= start + all_append(0));
            while w < self.workers
                invariant
                    w <= self.workers,
                    move_views(m@) == start + all_append(w as nat),
                decreases self.workers - w,
            {
                w = w + 1;
                push(
                    &mut m,
                    Move::Append { worker: w, handle: 30, mark: new_mark(w, 30, 3, 96) },
                );
                assert(move_views(m@) =~= start + all_append(w as nat));
            }
        }
        push(&mut m, Move::FreshVerify { worker: 1, path });
        self.push_closes(&mut m, 30);
        assert(move_views(m@) =~= append_moves(*self));
        m
    }

    fn unlink_recreate(&self) -> (moves: Vec<Move>)
        ensures
            move_views(moves@) == unlink_recreate_moves(*self),
    {
        let path = self.in_root("target.txt");
        let second: usize = self.second_worker();
        let mut m: Vec<Move> = Vec::new();
        push(
            &mut m,
            Move::Open {
                worker: 1,
                handle: 40,
                path: path.clone(),
                flags: OpenFlags::read_write_create(),
            },
        );
        push(
            &mut m,
            Move::Write { worker: 1, handle: 40, offset: 0, mark: new_mark(1, 40, 4, 96) },
        );
        push(&mut m, Move::Unlink { worker: second, path: path.clone() });
        push(
            &mut m,
            Move::Open {
                worker: second,
                handle: 41,
                path: path.clone(),
                flags: OpenFlags::read_write_truncate(),
            },
        );
        push(
            &mut m,
            Move::Write { worker: second, handle: 41, offset: 0, mark: new_mark(2, 41, 4, 96) },
        );
        push(&mut m, Move::FreshVerify { worker: 1, path });
        push(&mut m, Move::Close { worker: 1, handle: 40 });
        push(&mut m, Move::Close { worker: second, handle: 41 });
        assert(move_views(m@) =~= unlink_recreate_moves(*self));
        m
    }

    fn rename(&self) -> (moves: Vec<Move>)
        ensures
            move_views(moves@) == rename_moves(*self),
    {
        let a = self.in_root("rename-a.txt");
        let b = self.in_root("rename-b.txt");
        let second: usize = self.second_worker();
        let mut m: Vec<Move> = Vec::new();
        push(
            &mut m,
            Move::Open {
                worker: 1,
                handle: 50,
                path: a.clone(),
                flags: OpenFlags::read_write_create(),
            },
        );
        push(
            &mut m,
            Move::Write { worker: 1, handle: 50, offset: 0, mark: new_mark(1, 50, 5, 128) },
        );
        push(&mut m, Move::Rename { worker: second, from: a, to: b.clone() });
        push(&mut m, Move::FreshVerify { worker: 1, path: b });
        push(&mut m, Move::Close { worker: 1, handle: 50 });
        assert(move_views(m@) =~= rename_moves(*self));
        m
    }

    fn wordpress_like(&self) -> (moves: Vec<Move>)
        ensures
            move_views(moves@) == wordpress_like_moves(*self),
    {
        let plugin = self.in_root("wp-content/plugins/plugin.php");
        let theme = self.in_root("wp-content/themes/theme.php");
        let log = self.in_root("wp-content/debug.log");
        let second: usize = self.second_worker();
        let create = OpenFlags::read_write_create();
        let mut m: Vec<Move> = Vec::new();
        push(&mut m, Move::Open { worker: 1, handle: 60, path: plugin.clone(), flags: create });
        push(
            &mut m,
            Move::Write { worker: 1, handle: 60, offset: 0, mark: new_mark(1, 60, 6, 128) },
        );
        push(&mut m, Move::Close { worker: 1, handle: 60 });
        push(
            &mut m,
            Move::Open {
                worker: 1,
                handle: 61,
                path: plugin.clone(),
                flags: OpenFlags::read_only(),
            },
        );
        push(&mut m, Move::Open { worker: second, handle: 62, path: theme.clone(), flags: create });
        push(
            &mut m,
            Move::Write { worker: second, handle: 62, offset: 0, mark: new_mark(2, 62, 7, 128) },
        );
        push(
            &mut m,
            Move::Open {
                worker: 1,
                handle: 63,
                path: log.clone(),
                flags: OpenFlags::append_create(),
            },
        );
        push(&mut m, Move::SwitchLog { worker: 1, sink: LogSink::Handle(1, 63) });
        push(&mut m, Move::WriteLog { worker: 1, handle: 63, mark: new_mark(1, 63, 8, 96) });
        push(&mut m, Move::Stderr { worker: second });
        push(&mut m, Move::FreshVerify { worker: second, path: plugin });
        push(&mut m, Move::FreshVerify { worker: 1, path: theme });
        push(&mut m, Move::FreshVerify { worker: 1, path: log });
        push(&mut m, Move::Close { worker: 1, handle: 61 });
        push(&mut m, Move::Close { worker: second, handle: 62 });
        push(&mut m, Move::Close { worker: 1, handle: 63 });
        assert(move_views(m@) =~= wordpress_like_moves(*self));
        m
    }

    /// The moves of one round of a scenario.
    pub fn round(&self, kind: ScenarioKind) -> (moves: Vec<Move>)
        requires
            self.wf(),
        ensures
            move_views(moves@) == moves_of(*self, kind),
    {
        match kind {
            ScenarioKind::Random => {
                let none: Vec<Move> = Vec::new();
                assert(move_views(none@) =~= Seq::empty());
                none
            },
            ScenarioKind::SharedInode | ScenarioKind::Injection => self.shared_inode(),
            ScenarioKind::IndependentOffsets => self.independent_offsets(),
            ScenarioKind::OverlappingWrites => self.overlapping_writes(),
            ScenarioKind::StrongerRights => self.stronger_rights(),
            ScenarioKind::FdReuse => self.fd_reuse(),
            ScenarioKind::Append => self.append(),
            ScenarioKind::UnlinkRecreate => self.unlink_recreate(),
            ScenarioKind::Rename => self.rename(),
            ScenarioKind::WordpressLike => self.wordpress_like(),
        }
    }

    /// Whether the places that the workers write to are numbers.
    pub fn fits(&self) -> (r: bool)
        ensures
            r == self.wf(),
    {
        let asked: usize = if self.opsize_min < 128 {
            128
        } else {
            self.opsize_min
        };
        let size: usize = self.size_of_marker(asked);
        let wide: usize = if size < 128 {
            128
        } else {
            size
        };
        assert(self.workers as int * wide as int <= u128::MAX) by (nonlinear_arith)
            requires
                0 <= self.workers <= u64::MAX,
                0 <= wide <= u64::MAX,
        ;
        let needed: u128 = self.workers as u128 * wide as u128;
        1 <= self.workers && 1 <= self.files && needed <= usize::MAX as u128 && needed
            <= u64::MAX as u128
    }
}

proof fn lemma_fits(w: int, size: int, workers: int, wide: int)
    requires
        0 <= w <= workers,
        0 <= size <= wide,
    ensures
        0 <= w * size <= workers * wide,
{
    assert(0 <= w * size <= workers * wide) by (nonlinear_arith)
        requires
            0 <= w <= workers,
            0 <= size <= wide,
    ;
}

} // verus!
