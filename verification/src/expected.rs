//! The expected world: files, open handles and the latest commands of a run.

use std::collections::hash_map::DefaultHasher;
use std::hash::{Hash, Hasher};
use vstd::prelude::*;
use vstd::std_specs::hash::DefaultHasherAdditionalSpecFns;
use vstd::string::*;

use crate::fsx_laws::{resized, spliced};
use crate::pathorder::comes_before;
use crate::paths::{
    components, is_absolute_path, named_parts, path_parts, same_parts, same_path, same_texts,
    shortest_with,
};
use crate::strings::text_part;
use crate::text::{chars_of, dec, hex, pad_left, pieces, push_dec, push_hex_padded, texts};
use crate::world::{
    bytes_verdict, compare_bytes, contents, failed, file_views, handle_map, handle_of,
    law_put_is_found, lemma_put_sorted, lemma_without_sorted, lookup, put, run_view, sorted, without, FileView,
    HandleMeta, HandleView, OpenFlags, RunError, RunErrorView, WorldFile,
};

verus! {

/// Commands that a world remembers at most.
pub const COMMANDS_KEPT: usize = 512;

pub struct ExpectedWorld {
    pub root: String,
    pub files: Vec<WorldFile>,
    pub handles: Vec<HandleMeta>,
    pub command_log: Vec<String>,
    pub verified_files: usize,
}

/// A world by its values.
#[verifier::ext_equal]
pub struct WorldView {
    pub root: Seq<char>,
    pub files: Seq<FileView>,
    pub handles: Map<(usize, u64), HandleView>,
    pub log: Seq<Seq<char>>,
    pub verified: usize,
}

impl View for ExpectedWorld {
    type V = WorldView;

    open spec fn view(&self) -> WorldView {
        WorldView {
            root: self.root@,
            files: file_views(self.files@),
            handles: handle_map(self.handles@),
            log: texts(self.command_log@),
            verified: self.verified_files,
        }
    }
}

/// The log once a line was added: at most 512 lines stay.
pub open spec fn logged(log: Seq<Seq<char>>, line: Seq<char>) -> Seq<Seq<char>> {
    if log.len() >= COMMANDS_KEPT {
        log.drop_first().push(line)
    } else {
        log.push(line)
    }
}

/// The world once a worker has opened a file.
pub open spec fn opened(
    v: WorldView,
    worker: usize,
    handle: u64,
    path: Seq<char>,
    flags: OpenFlags,
) -> WorldView {
    WorldView {
        files: if flags.truncate || ((flags.create || flags.create_new) && lookup(v.files, path)
            is None) {
            put(v.files, path, Seq::empty())
        } else {
            v.files
        },
        handles: v.handles.insert((worker, handle), HandleView { path, pos: 0 }),
        ..v
    }
}

/// What is said of a handle that is not open.
pub open spec fn unknown_handle(handle: u64) -> RunErrorView {
    failed("syscall-error"@, "unknown handle "@ + dec(handle as nat))
}

/// The world once the file of a handle holds `data`, where the handle is open.
pub open spec fn rewritten(v: WorldView, key: (usize, u64), data: Seq<u8>) -> WorldView {
    WorldView { files: put(v.files, v.handles[key].path, data), ..v }
}

/// What the file of an open handle holds.
pub open spec fn held(v: WorldView, key: (usize, u64)) -> Seq<u8> {
    contents(v.files, v.handles[key].path)
}

/// What a change of the file of a handle comes to: the error where the handle is not open.
pub open spec fn changed(v: WorldView, key: (usize, u64), data: Seq<u8>) -> (
    Result<(), RunErrorView>,
    WorldView,
) {
    if v.handles.dom().contains(key) {
        (Ok(()), rewritten(v, key, data))
    } else {
        (Err(unknown_handle(key.1)), v)
    }
}

/// A handle on a file that may have got a new name.
pub open spec fn moved(h: HandleView, from: Seq<char>, to: Seq<char>) -> HandleView {
    if same_parts(h.path, from) {
        HandleView { path: to, ..h }
    } else {
        h
    }
}

pub open spec fn renamed(v: WorldView, from: Seq<char>, to: Seq<char>) -> WorldView {
    WorldView {
        files: match lookup(v.files, from) {
            Some(data) => put(without(v.files, from), to, data),
            None => without(v.files, from),
        },
        handles: v.handles.map_values(|h: HandleView| moved(h, from, to)),
        ..v
    }
}

/// What reading a file came to.
pub type FileBytes = Result<Vec<u8>, String>;

/// The verdict on the files from `i` on, and how many of them were compared.
pub open spec fn fresh_verdict(files: Seq<FileView>, reads: Seq<FileBytes>, i: nat) -> (
    Result<(), RunErrorView>,
    nat,
)
    decreases files.len() - i,
{
    if i >= files.len() {
        (Ok(()), 0)
    } else {
        let path = files[i as int].path;
        match reads[i as int] {
            Err(e) => (
                Err(failed("missing-file"@, "failed to read "@ + path + ": "@ + e@)),
                0,
            ),
            Ok(actual) => match bytes_verdict(path, files[i as int].data, actual@) {
                Err(e) => (Err(e), 1),
                Ok(_) => {
                    let (r, n) = fresh_verdict(files, reads, i + 1);
                    (r, n + 1)
                },
            },
        }
    }
}

/// The verdict on the files that were found, from `i` on: each is to be a file of the world.
pub open spec fn found_verdict(files: Seq<FileView>, found: Seq<Seq<char>>, i: nat) -> Result<
    (),
    RunErrorView,
>
    decreases found.len() - i,
{
    if i >= found.len() {
        Ok(())
    } else if lookup(files, found[i as int]) is None {
        Err(
            failed(
                "unexpected-file"@,
                "unmodeled file under run root: "@ + found[i as int],
            ),
        )
    } else {
        found_verdict(files, found, i + 1)
    }
}

pub open spec fn all_fresh(
    v: WorldView,
    reads: Seq<FileBytes>,
    found: Result<Vec<String>, RunError>,
) -> Result<(), RunErrorView> {
    match fresh_verdict(v.files, reads, 0).0 {
        Err(e) => Err(e),
        Ok(_) => match found {
            Err(e) => Err(e@),
            Ok(paths) => found_verdict(v.files, texts(paths@), 0),
        },
    }
}

/// The text of `file` below `root`: where the components of `root` begin those of `file`,
/// what stands behind them.
pub open spec fn below(root: Seq<char>, file: Seq<char>) -> Seq<char> {
    let p = path_parts(root);
    let q = path_parts(file);
    if p.len() <= q.len() && q.take(p.len() as int) == p {
        if p.len() == q.len() {
            Seq::empty()
        } else {
            let end = shortest_with(file, q.take(p.len() as int + 1), 0);
            let rest = file.skip(end - q[p.len() as int].len());
            rest.take(shortest_with(rest, path_parts(rest), 0) as int)
        }
    } else {
        file
    }
}

/// A line of a manifest.
pub open spec fn manifest_line(path: Seq<char>, len: nat, hash: u64) -> Seq<char> {
    path + "\t"@ + dec(len) + "\t"@ + pad_left(hex(hash as nat), 16, '0') + "\n"@
}

/// The lines of the first `n` files in a manifest.
pub open spec fn manifest_lines(
    root: Seq<char>,
    files: Seq<FileView>,
    hashes: Seq<u64>,
    n: nat,
) -> Seq<char>
    decreases n,
{
    if n == 0 {
        Seq::empty()
    } else {
        let f = files[n - 1];
        manifest_lines(root, files, hashes, (n - 1) as nat) + manifest_line(
            below(root, f.path),
            f.data.len(),
            hashes[n - 1],
        )
    }
}

/// Lines, each with its end.
pub open spec fn ended_lines(lines: Seq<Seq<char>>) -> Seq<char>
    decreases lines.len(),
{
    if lines.len() == 0 {
        Seq::empty()
    } else {
        ended_lines(lines.drop_last()) + lines.last() + seq!['\n']
    }
}

pub open spec fn world_report(v: WorldView, e: RunErrorView, scenario: Seq<char>, seed: u64) -> Seq<
    char,
> {
    "category="@ + e.category + "\nscenario="@ + scenario + "\nseed="@ + dec(seed as nat)
        + "\nmessage="@ + e.message + "\nLOG DUMP\n"@ + ended_lines(v.log)
}

/// The writes that `Hash::hash` for slices makes of `data` to a hasher, on a machine whose
/// `usize` has `bits` bits and whose byte order is the big-endian one where `big` holds, else
/// the little-endian one.
pub uninterp spec fn slice_writes(data: Seq<u8>, bits: u32, big: bool) -> Seq<Seq<u8>>;

/// Feeds bytes to a hasher with `Hash::hash` for slices. It adds writes to those before, which
/// the bytes, the size of a `usize` and the machine's byte order determine; which of the two
/// orders the machine has is left unsaid.
#[verifier::external_body]
fn feed(data: &[u8], hasher: &mut DefaultHasher)
    ensures
        final(hasher)@ == old(hasher)@ + slice_writes(data@, usize::BITS, true) || final(hasher)@
            == old(hasher)@ + slice_writes(data@, usize::BITS, false),
{
    data.hash(hasher);
}

/// The hash of bytes on a machine of a given byte order.
pub open spec fn hash_on(data: Seq<u8>, big: bool) -> u64 {
    DefaultHasher::spec_finish(slice_writes(data, usize::BITS, big))
}

/// Whether `h` is the hash of `data` on a machine of either byte order.
pub open spec fn hash_of(data: Seq<u8>, h: u64) -> bool {
    h == hash_on(data, true) || h == hash_on(data, false)
}

/// The hash of bytes, from std's `DefaultHasher`.
pub(crate) fn stable_hash(data: &[u8]) -> (h: u64)
    ensures
        hash_of(data@, h),
{
    let mut hasher = DefaultHasher::new();
    feed(data, &mut hasher);
    assert(Seq::<Seq<u8>>::empty() + slice_writes(data@, usize::BITS, true) =~= slice_writes(
        data@,
        usize::BITS,
        true,
    ));
    assert(Seq::<Seq<u8>>::empty() + slice_writes(data@, usize::BITS, false) =~= slice_writes(
        data@,
        usize::BITS,
        false,
    ));
    hasher.finish()
}

/// Whether each of the hashes is that of the file at its place.
pub open spec fn hashes_of(files: Seq<FileView>, hashes: Seq<u64>) -> bool {
    &&& hashes.len() == files.len()
    &&& forall|k: int| 0 <= k < files.len() ==> hash_of(files[k].data, #[trigger] hashes[k])
}

pub proof fn lemma_handle_pushed(handles: Seq<HandleMeta>, h: HandleMeta)
    ensures
        handle_map(handles.push(h)) == handle_map(handles).insert(
            (h.worker, h.handle),
            HandleView { path: h.path@, pos: h.pos },
        ),
{
    assert(handles.push(h).drop_last() =~= handles);
    assert(handle_map(handles.push(h)) =~= handle_map(handles).insert(
        (h.worker, h.handle),
        HandleView { path: h.path@, pos: h.pos },
    ));
}

pub(crate) fn handles_without(handles: &Vec<HandleMeta>, worker: usize, handle: u64) -> (out: Vec<HandleMeta>)
    ensures
        handle_map(out@) == handle_map(handles@).remove((worker, handle)),
{
    let mut out: Vec<HandleMeta> = Vec::new();
    let total: usize = handles.len();
    let mut i: usize = 0;
    while i < total
        invariant
            total == handles@.len(),
            i <= total,
            forall|w: usize, h: u64| #[trigger]
                handle_of(out@, w, h) == if w == worker && h == handle {
                    None
                } else {
                    handle_of(handles@.take(i as int), w, h)
                },
        decreases total - i,
    {
        assert(handles@.take(i + 1).drop_last() =~= handles@.take(i as int));
        let m = &handles[i];
        let ghost before = out@;
        if m.worker != worker || m.handle != handle {
            let copy = HandleMeta {
                worker: m.worker,
                handle: m.handle,
                path: m.path.clone(),
                pos: m.pos,
            };
            out.push(copy);
            assert(out@.drop_last() =~= before);
        }
        assert forall|w: usize, h: u64| #[trigger]
            handle_of(out@, w, h) == if w == worker && h == handle {
                None
            } else {
                handle_of(handles@.take(i + 1), w, h)
            } by {
            assert(handle_of(before, w, h) == if w == worker && h == handle {
                None
            } else {
                handle_of(handles@.take(i as int), w, h)
            });
            assert(handles@.take(i + 1).last() == handles@[i as int]);
        }
        i = i + 1;
    }
    assert(handles@.take(i as int) =~= handles@);
    assert(handle_map(out@) =~= handle_map(handles@).remove((worker, handle)));
    out
}

fn handles_moved(handles: &Vec<HandleMeta>, from: &str, to: &str) -> (out: Vec<HandleMeta>)
    ensures
        handle_map(out@) == handle_map(handles@).map_values(
            |h: HandleView| moved(h, from@, to@),
        ),
{
    let mut out: Vec<HandleMeta> = Vec::new();
    let total: usize = handles.len();
    let mut i: usize = 0;
    while i < total
        invariant
            total == handles@.len(),
            i <= total,
            forall|w: usize, h: u64| #[trigger]
                handle_of(out@, w, h) == match handle_of(handles@.take(i as int), w, h) {
                    Some(meta) => Some(moved(meta, from@, to@)),
                    None => None,
                },
        decreases total - i,
    {
        assert(handles@.take(i + 1).drop_last() =~= handles@.take(i as int));
        let m = &handles[i];
        let path = if same_path(m.path.as_str(), from) {
            to.to_string()
        } else {
            m.path.clone()
        };
        let ghost before = out@;
        out.push(HandleMeta { worker: m.worker, handle: m.handle, path, pos: m.pos });
        assert(out@.drop_last() =~= before);
        assert forall|w: usize, h: u64| #[trigger]
            handle_of(out@, w, h) == match handle_of(handles@.take(i + 1), w, h) {
                Some(meta) => Some(moved(meta, from@, to@)),
                None => None,
            } by {
            assert(handle_of(before, w, h) == match handle_of(handles@.take(i as int), w, h) {
                Some(meta) => Some(moved(meta, from@, to@)),
                None => None,
            });
            assert(handles@.take(i + 1).last() == handles@[i as int]);
        }
        i = i + 1;
    }
    assert(handles@.take(i as int) =~= handles@);
    assert(handle_map(out@) =~= handle_map(handles@).map_values(
        |h: HandleView| moved(h, from@, to@),
    ));
    out
}

pub(crate) fn handle_index(handles: &Vec<HandleMeta>, worker: usize, handle: u64) -> (r: Option<usize>)
    ensures
        r is Some == handle_map(handles@).dom().contains((worker, handle)),
        r matches Some(i) ==> i < handles@.len() && handles@[i as int].worker == worker
            && handles@[i as int].handle == handle && handle_map(handles@)[(worker, handle)] == (
        HandleView { path: handles@[i as int].path@, pos: handles@[i as int].pos }),
{
    let mut i: usize = handles.len();
    assert(handles@.take(i as int) =~= handles@);
    while i > 0
        invariant
            i <= handles@.len(),
            handle_of(handles@, worker, handle) == handle_of(
                handles@.take(i as int),
                worker,
                handle,
            ),
        decreases i,
    {
        i = i - 1;
        assert(handles@.take(i + 1).drop_last() =~= handles@.take(i as int));
        if handles[i].worker == worker && handles[i].handle == handle {
            return Some(i);
        }
    }
    None
}

pub(crate) fn bytes_copy(data: &Vec<u8>) -> (out: Vec<u8>)
    ensures
        out@ == data@,
{
    let mut out: Vec<u8> = Vec::new();
    out.extend_from_slice(data.as_slice());
    assert(out@ =~= data@);
    out
}

/// What was written through a handle is read back through it.
pub proof fn law_written_is_read_back(v: WorldView, key: (usize, u64), offset: int, data: Seq<u8>)
    requires
        v.handles.dom().contains(key),
        offset >= 0,
    ensures
        held(changed(v, key, spliced(held(v, key), offset, data)).1, key).subrange(
            offset,
            offset + data.len(),
        ) == data,
{
    let path = v.handles[key].path;
    let after = spliced(held(v, key), offset, data);
    law_put_is_found(v.files, path, after, path);
    assert(after.subrange(offset, offset + data.len()) =~= data);
}

impl ExpectedWorld {
    pub open spec fn wf(&self) -> bool {
        &&& sorted(self@.files)
        &&& self@.log.len() <= COMMANDS_KEPT
    }

    pub fn new(root: String) -> (world: Self)
        ensures
            world.wf(),
            world@ == (WorldView {
                root: root@,
                files: Seq::empty(),
                handles: Map::empty(),
                log: Seq::empty(),
                verified: 0,
            }),
    {
        let world = ExpectedWorld {
            root,
            files: Vec::new(),
            handles: Vec::new(),
            command_log: Vec::new(),
            verified_files: 0,
        };
        assert(world@.files =~= Seq::empty());
        assert(world@.handles =~= Map::empty());
        assert(world@.log =~= Seq::empty());
        world
    }

    /// Remembers a command.
    pub fn log(&mut self, line: String)
        requires
            old(self).wf(),
        ensures
            final(self).wf(),
            final(self)@ == (WorldView { log: logged(old(self)@.log, line@), ..old(self)@ }),
    {
        let ghost before = texts(self.command_log@);
        self.command_log.push(line);
        assert(texts(self.command_log@) =~= before.push(line@));
        if self.command_log.len() > COMMANDS_KEPT {
            self.command_log.remove(0);
            assert(texts(self.command_log@) =~= before.drop_first().push(line@));
        }
    }

    fn find(&self, path: &str) -> (r: Option<usize>)
        ensures
            match r {
                Some(i) => i < self.files@.len() && lookup(self@.files, path@) == Some(
                    self.files@[i as int].data@,
                ) && same_parts(self.files@[i as int].path@, path@) && without(
                    self@.files,
                    path@,
                ) == self@.files.remove(i as int),
                None => lookup(self@.files, path@) is None && without(self@.files, path@)
                    == self@.files,
            },
    {
        let total: usize = self.files.len();
        let ghost all = self@.files;
        let mut i: usize = 0;
        assert(all.skip(0) =~= all);
        assert(all.take(0) + without(all, path@) =~= without(all, path@));
        while i < total
            invariant
                total == self.files@.len(),
                all == self@.files,
                i <= total,
                lookup(all, path@) == lookup(all.skip(i as int), path@),
                without(all, path@) == all.take(i as int) + without(all.skip(i as int), path@),
            decreases total - i,
        {
            assert(all.skip(i as int)[0] == all[i as int]);
            assert(all.skip(i as int).drop_first() =~= all.skip(i + 1));
            assert(all[i as int] == self.files@[i as int]@);
            if same_path(self.files[i].path.as_str(), path) {
                assert(without(all, path@) =~= all.remove(i as int));
                return Some(i);
            }
            assert(all.take(i as int) + without(all.skip(i as int), path@) =~= all.take(i + 1)
                + without(all.skip(i + 1), path@));
            i = i + 1;
        }
        assert(without(all, path@) =~= all);
        None
    }

    /// A copy of what the file at `path` holds; nothing where there is none.
    pub fn bytes_of(&self, path: &str) -> (data: Vec<u8>)
        ensures
            data@ == contents(self@.files, path@),
    {
        match self.find(path) {
            Some(i) => bytes_copy(&self.files[i].data),
            None => {
                let data: Vec<u8> = Vec::new();
                assert(data@ =~= Seq::empty());
                data
            },
        }
    }

    /// Lets the file at `path` hold `data`.
    pub fn put_file(&mut self, path: &str, data: Vec<u8>)
        requires
            old(self).wf(),
        ensures
            final(self).wf(),
            final(self)@ == (WorldView { files: put(old(self)@.files, path@, data@), ..old(self)@ }),
    {
        let total: usize = self.files.len();
        let ghost all = self@.files;
        let ghost goal = put(all, path@, data@);
        proof {
            lemma_put_sorted(all, path@, data@);
        }
        let mut i: usize = 0;
        assert(all.skip(0) =~= all);
        assert(all.take(0) + goal =~= goal);
        while i < total
            invariant
                total == self.files@.len(),
                *self == *old(self),
                all == self@.files,
                goal == put(all, path@, data@),
                sorted(goal),
                self.wf(),
                i <= total,
                goal == all.take(i as int) + put(all.skip(i as int), path@, data@),
            decreases total - i,
        {
            assert(all.skip(i as int)[0] == all[i as int]);
            assert(all.skip(i as int).drop_first() =~= all.skip(i + 1));
            assert(all[i as int] == self.files@[i as int]@);
            if same_path(self.files[i].path.as_str(), path) {
                let kept = self.files[i].path.clone();
                self.files[i] = WorldFile { path: kept, data };
                assert(self@.files =~= goal);
                return ;
            }
            if comes_before(path, self.files[i].path.as_str()) {
                self.files.insert(i, WorldFile { path: path.to_string(), data });
                assert(self@.files =~= goal);
                return ;
            }
            assert(all.take(i as int) + put(all.skip(i as int), path@, data@) =~= all.take(i + 1)
                + put(all.skip(i + 1), path@, data@));
            i = i + 1;
        }
        self.files.push(WorldFile { path: path.to_string(), data });
        assert(self@.files =~= goal);
    }

    /// Follows a worker that has opened a file.
    pub fn open(&mut self, worker: usize, handle: u64, path: String, flags: OpenFlags)
        requires
            old(self).wf(),
        ensures
            final(self).wf(),
            final(self)@ == opened(old(self)@, worker, handle, path@, flags),
    {
        if flags.truncate {
            let nothing: Vec<u8> = Vec::new();
            assert(nothing@ =~= Seq::empty());
            self.put_file(path.as_str(), nothing);
        } else if flags.create || flags.create_new {
            if self.find(path.as_str()).is_none() {
                let nothing: Vec<u8> = Vec::new();
                assert(nothing@ =~= Seq::empty());
                self.put_file(path.as_str(), nothing);
            }
        }
        let mut handles = handles_without(&self.handles, worker, handle);
        let meta = HandleMeta { worker, handle, path, pos: 0 };
        proof {
            lemma_handle_pushed(handles@, meta);
        }
        handles.push(meta);
        self.handles = handles;
        assert(self@.handles =~= old(self)@.handles.insert(
            (worker, handle),
            HandleView { path: path@, pos: 0 },
        ));
    }

    /// Follows a worker that has closed a handle.
    pub fn close(&mut self, worker: usize, handle: u64)
        requires
            old(self).wf(),
        ensures
            final(self).wf(),
            final(self)@ == (WorldView {
                handles: old(self)@.handles.remove((worker, handle)),
                ..old(self)@
            }),
    {
        self.handles = handles_without(&self.handles, worker, handle);
    }

    /// What a handle is open on.
    pub fn handle_path(&self, worker: usize, handle: u64) -> (r: Result<String, RunError>)
        ensures
            match r {
                Ok(path) => self@.handles.dom().contains((worker, handle)) && path@
                    == self@.handles[(worker, handle)].path,
                Err(e) => !self@.handles.dom().contains((worker, handle)) && e@ == unknown_handle(
                    handle,
                ),
            },
    {
        match handle_index(&self.handles, worker, handle) {
            Some(i) => Ok(self.handles[i].path.clone()),
            None => {
                let mut s = "unknown handle ".to_string();
                push_dec(&mut s, handle);
                Err(RunError::new("syscall-error", s))
            },
        }
    }

    /// Follows a worker that has moved a handle; a handle that is not open stays so.
    pub fn set_pos(&mut self, worker: usize, handle: u64, pos: u64)
        requires
            old(self).wf(),
        ensures
            final(self).wf(),
            final(self)@ == if old(self)@.handles.dom().contains((worker, handle)) {
                WorldView {
                    handles: old(self)@.handles.insert(
                        (worker, handle),
                        HandleView { pos, ..old(self)@.handles[(worker, handle)] },
                    ),
                    ..old(self)@
                }
            } else {
                old(self)@
            },
    {
        if let Some(i) = handle_index(&self.handles, worker, handle) {
            let path = self.handles[i].path.clone();
            let mut handles = handles_without(&self.handles, worker, handle);
            let meta = HandleMeta { worker, handle, path, pos };
            proof {
                lemma_handle_pushed(handles@, meta);
            }
            handles.push(meta);
            self.handles = handles;
            assert(self@.handles =~= old(self)@.handles.insert(
                (worker, handle),
                HandleView { pos, ..old(self)@.handles[(worker, handle)] },
            ));
        }
    }

    /// Follows a worker that has written `data` at `offset`.
    pub fn write_at(&mut self, worker: usize, handle: u64, offset: u64, data: &[u8]) -> (r: Result<
        (),
        RunError,
    >)
        requires
            old(self).wf(),
            offset + data@.len() <= usize::MAX,
        ensures
            final(self).wf(),
            (run_view(r), final(self)@) == changed(
                old(self)@,
                (worker, handle),
                spliced(held(old(self)@, (worker, handle)), offset as int, data@),
            ),
    {
        let path = match self.handle_path(worker, handle) {
            Ok(path) => path,
            Err(e) => {
                return Err(e);
            },
        };
        let mut buf = self.bytes_of(path.as_str());
        let ghost before = buf@;
        let start: usize = offset as usize;
        let size: usize = data.len();
        if buf.len() < start {
            buf.resize(start, 0u8);
            assert(buf@ =~= resized(before, start as nat));
        }
        let ghost middle = buf@;
        assert(middle =~= resized(before, middle.len()));
        if buf.len() < start + size {
            buf.resize(start + size, 0u8);
            assert(buf@ =~= resized(middle, (start + size) as nat));
            assert(buf@ =~= resized(before, (start + size) as nat));
        }
        let ghost wide = buf@;
        assert(wide =~= resized(before, wide.len()));
        let mut i: usize = 0;
        while i < size
            invariant
                i <= size,
                size == data@.len(),
                start + size <= usize::MAX,
                start + size <= buf@.len(),
                buf@.len() == wide.len(),
                forall|j: int|
                    0 <= j < buf@.len() ==> #[trigger] buf@[j] == if start <= j < start + i {
                        data@[j - start]
                    } else {
                        wide[j]
                    },
            decreases size - i,
        {
            buf[start + i] = data[i];
            i = i + 1;
        }
        assert(buf@ =~= spliced(before, offset as int, data@));
        self.put_file(path.as_str(), buf);
        Ok(())
    }

    /// Follows a worker that has written `data` at the end.
    pub fn append(&mut self, worker: usize, handle: u64, data: &[u8]) -> (r: Result<(), RunError>)
        requires
            old(self).wf(),
        ensures
            final(self).wf(),
            (run_view(r), final(self)@) == changed(
                old(self)@,
                (worker, handle),
                held(old(self)@, (worker, handle)) + data@,
            ),
    {
        let path = match self.handle_path(worker, handle) {
            Ok(path) => path,
            Err(e) => {
                return Err(e);
            },
        };
        let mut buf = self.bytes_of(path.as_str());
        let ghost before = buf@;
        buf.extend_from_slice(data);
        assert(buf@ =~= before + data@);
        self.put_file(path.as_str(), buf);
        Ok(())
    }

    /// Follows a worker that has set the length of a file.
    pub fn truncate(&mut self, worker: usize, handle: u64, size: u64) -> (r: Result<(), RunError>)
        requires
            old(self).wf(),
            size <= usize::MAX,
        ensures
            final(self).wf(),
            (run_view(r), final(self)@) == changed(
                old(self)@,
                (worker, handle),
                resized(held(old(self)@, (worker, handle)), size as nat),
            ),
    {
        let path = match self.handle_path(worker, handle) {
            Ok(path) => path,
            Err(e) => {
                return Err(e);
            },
        };
        let mut buf = self.bytes_of(path.as_str());
        let ghost before = buf@;
        buf.resize(size as usize, 0u8);
        assert(buf@ =~= resized(before, size as nat));
        self.put_file(path.as_str(), buf);
        Ok(())
    }

    /// Follows the deletion of a file. Handles stay open.
    pub fn unlink(&mut self, path: &str)
        requires
            old(self).wf(),
        ensures
            final(self).wf(),
            final(self)@ == (WorldView { files: without(old(self)@.files, path@), ..old(self)@ }),
    {
        proof {
            lemma_without_sorted(self@.files, path@);
        }
        if let Some(i) = self.find(path) {
            self.files.remove(i);
            assert(self@.files =~= old(self)@.files.remove(i as int));
        }
    }

    /// Follows a file that got a new name. Handles on it stay open on it.
    pub fn rename(&mut self, from: &str, to: &str)
        requires
            old(self).wf(),
        ensures
            final(self).wf(),
            final(self)@ == renamed(old(self)@, from@, to@),
    {
        proof {
            lemma_without_sorted(self@.files, from@);
        }
        if let Some(i) = self.find(from) {
            let file = self.files.remove(i);
            assert(self@.files =~= old(self)@.files.remove(i as int));
            self.put_file(to, file.data);
        }
        self.handles = handles_moved(&self.handles, from, to);
    }

    /// Judges what the file at `path` was found to hold.
    pub fn verify_path(&mut self, path: &str, actual: &[u8]) -> (r: Result<(), RunError>)
        requires
            old(self).wf(),
            old(self).verified_files < usize::MAX,
        ensures
            final(self).wf(),
            final(self)@ == (WorldView {
                verified: (old(self)@.verified + 1) as usize,
                ..old(self)@
            }),
            run_view(r) == match lookup(old(self)@.files, path@) {
                Some(expected) => bytes_verdict(path@, expected, actual@),
                None => Err(failed("unexpected-file"@, path@ + " exists but is not modeled"@)),
            },
    {
        self.verified_files = self.verified_files + 1;
        match self.find(path) {
            Some(i) => compare_bytes(path, self.files[i].data.as_slice(), actual),
            None => Err(
                RunError::new(
                    "unexpected-file",
                    path.to_string().concat(" exists but is not modeled"),
                ),
            ),
        }
    }

    /// Judges all files: what each was found to hold, and which were found under the root.
    pub fn verify_all_fresh(
        &mut self,
        reads: &Vec<FileBytes>,
        found: Result<Vec<String>, RunError>,
    ) -> (r: Result<(), RunError>)
        requires
            old(self).wf(),
            reads@.len() == old(self).files@.len(),
            old(self).verified_files + reads@.len() <= usize::MAX,
        ensures
            final(self).wf(),
            final(self)@ == (WorldView {
                verified: (old(self)@.verified + fresh_verdict(old(self)@.files, reads@, 0).1) as usize,
                ..old(self)@
            }),
            run_view(r) == all_fresh(old(self)@, reads@, found),
    {
        let total: usize = self.files.len();
        let ghost all = self@.files;
        let ghost goal = fresh_verdict(all, reads@, 0);
        let mut i: usize = 0;
        while i < total
            invariant
                total == self.files@.len(),
                total == reads@.len(),
                i <= total,
                self.wf(),
                all == self@.files,
                all == old(self)@.files,
                goal == fresh_verdict(all, reads@, 0),
                self@ == (WorldView {
                    verified: (old(self)@.verified + i) as usize,
                    ..old(self)@
                }),
                old(self).verified_files + total <= usize::MAX,
                goal.0 == fresh_verdict(all, reads@, i as nat).0,
                goal.1 == i + fresh_verdict(all, reads@, i as nat).1,
            decreases total - i,
        {
            assert(all[i as int] == self.files@[i as int]@);
            match &reads[i] {
                Err(e) => {
                    let s = "failed to read ".to_string().concat(
                        self.files[i].path.as_str(),
                    ).concat(": ").concat(e.as_str());
                    return Err(RunError::new("missing-file", s));
                },
                Ok(actual) => {
                    self.verified_files = self.verified_files + 1;
                    let r = compare_bytes(
                        self.files[i].path.as_str(),
                        self.files[i].data.as_slice(),
                        actual.as_slice(),
                    );
                    if let Err(e) = r {
                        return Err(e);
                    }
                },
            }
            i = i + 1;
        }
        let paths = match found {
            Ok(paths) => paths,
            Err(e) => {
                return Err(e);
            },
        };
        let count: usize = paths.len();
        let mut k: usize = 0;
        while k < count
            invariant
                count == paths@.len(),
                k <= count,
                all == self@.files,
                self.wf(),
                found_verdict(all, texts(paths@), 0) == found_verdict(all, texts(paths@), k as nat),
                all_fresh(old(self)@, reads@, found) == found_verdict(all, texts(paths@), 0),
                self@ == (WorldView {
                    verified: (old(self)@.verified + goal.1) as usize,
                    ..old(self)@
                }),
                goal == fresh_verdict(old(self)@.files, reads@, 0),
            decreases count - k,
        {
            assert(texts(paths@)[k as int] == paths@[k as int]@);
            if self.find(paths[k].as_str()).is_none() {
                let s = "unmodeled file under run root: ".to_string().concat(paths[k].as_str());
                return Err(RunError::new("unexpected-file", s));
            }
            k = k + 1;
        }
        Ok(())
    }

    /// The manifest of the files, given their hashes.
    pub fn manifest_with(&self, hashes: &Vec<u64>) -> (out: String)
        requires
            hashes@.len() == self.files@.len(),
        ensures
            out@ == manifest_lines(self@.root, self@.files, hashes@, self@.files.len()),
    {
        let total: usize = self.files.len();
        let mut out = String::new();
        let mut i: usize = 0;
        assert(out@ =~= Seq::empty());
        while i < total
            invariant
                total == self.files@.len(),
                total == hashes@.len(),
                i <= total,
                out@ == manifest_lines(self@.root, self@.files, hashes@, i as nat),
            decreases total - i,
        {
            let f = &self.files[i];
            assert(self@.files[i as int] == f@);
            let ghost before = out@;
            let rel = strip_root(self.root.as_str(), f.path.as_str());
            out.append(rel.as_str());
            out.append("\t");
            push_dec(&mut out, f.data.len() as u64);
            out.append("\t");
            push_hex_padded(&mut out, hashes[i], 16);
            out.append("\n");
            assert(out@ =~= before + manifest_line(rel@, f.data@.len(), hashes@[i as int]));
            i = i + 1;
        }
        out
    }

    /// The manifest of the files: each with its length and the hash of its bytes.
    pub fn write_manifest(&self) -> (out: String)
        ensures
            exists|hashes: Seq<u64>|
                hashes_of(self@.files, hashes) && out@ == #[trigger] manifest_lines(
                    self@.root,
                    self@.files,
                    hashes,
                    self@.files.len(),
                ),
    {
        let total: usize = self.files.len();
        let mut hashes: Vec<u64> = Vec::new();
        let mut i: usize = 0;
        while i < total
            invariant
                total == self.files@.len(),
                i <= total,
                hashes@.len() == i,
                forall|k: int|
                    0 <= k < i ==> hash_of(self@.files[k].data, #[trigger] hashes@[k]),
            decreases total - i,
        {
            assert(self@.files[i as int].data == self.files@[i as int].data@);
            hashes.push(stable_hash(self.files[i].data.as_slice()));
            i = i + 1;
        }
        self.manifest_with(&hashes)
    }

    /// What is reported of a failed run.
    pub fn report(&self, err: &RunError, scenario: &str, seed: u64) -> (out: String)
        ensures
            out@ == world_report(self@, err@, scenario@, seed),
    {
        let mut out = "category=".to_string();
        out.append(err.category);
        out.append("\nscenario=");
        out.append(scenario);
        out.append("\nseed=");
        push_dec(&mut out, seed);
        out.append("\nmessage=");
        out.append(err.message.as_str());
        out.append("\nLOG DUMP\n");
        let ghost head = out@;
        let total: usize = self.command_log.len();
        let ghost log = self@.log;
        let mut i: usize = 0;
        assert(log.take(0) =~= Seq::empty());
        assert(head =~= head + ended_lines(log.take(0)));
        while i < total
            invariant
                total == self.command_log@.len(),
                log == self@.log,
                i <= total,
                out@ == head + ended_lines(log.take(i as int)),
            decreases total - i,
        {
            out.append(self.command_log[i].as_str());
            out.push('\n');
            assert(log.take(i + 1).drop_last() =~= log.take(i as int));
            assert(log.take(i + 1).last() == self.command_log@[i as int]@);
            assert(out@ =~= head + ended_lines(log.take(i + 1)));
            i = i + 1;
        }
        assert(log.take(i as int) =~= log);
        out
    }
}

fn shortest(s: &str, parts: &Vec<String>) -> (n: usize)
    ensures
        n == shortest_with(s@, texts(parts@), 0),
        n <= s@.len(),
{
    let chars = chars_of(s);
    let ghost goal = texts(parts@);
    let mut n: usize = 0;
    let mut start = String::new();
    assert(start@ =~= s@.take(0));
    while n < chars.len()
        invariant
            n <= chars@.len(),
            chars@ == s@,
            start@ == s@.take(n as int),
            texts(parts@) == goal,
            shortest_with(s@, goal, 0) == shortest_with(s@, goal, n as nat),
        decreases chars@.len() - n,
    {
        let found = components(start.as_str());
        if same_texts(&found, parts) {
            return n;
        }
        start.push(chars[n]);
        n = n + 1;
        assert(start@ =~= s@.take(n as int));
    }
    n
}

proof fn lemma_piece_fits(s: Seq<char>, sep: char, i: int)
    requires
        0 <= i < pieces(s, sep).len(),
    ensures
        pieces(s, sep)[i].len() <= s.len(),
    decreases s.len(),
{
    if s.len() > 0 {
        lemma_some_piece(s.drop_last(), sep);
        let before = pieces(s.drop_last(), sep);
        if s.last() == sep {
            if i < before.len() {
                lemma_piece_fits(s.drop_last(), sep, i);
            }
        } else {
            lemma_piece_fits(s.drop_last(), sep, i);
        }
    }
}

proof fn lemma_some_piece(s: Seq<char>, sep: char)
    ensures
        pieces(s, sep).len() >= 1,
    decreases s.len(),
{
    if s.len() > 0 {
        lemma_some_piece(s.drop_last(), sep);
    }
}

proof fn lemma_named_fits(ps: Seq<Seq<char>>, n: nat, bound: nat, i: int)
    requires
        n <= ps.len(),
        forall|j: int| 0 <= j < ps.len() ==> (#[trigger] ps[j]).len() <= bound,
        0 <= i < named_parts(ps, n).len(),
    ensures
        named_parts(ps, n)[i].len() <= bound,
    decreases n,
{
    if n > 0 {
        let before = named_parts(ps, (n - 1) as nat);
        if i < before.len() {
            lemma_named_fits(ps, (n - 1) as nat, bound, i);
        }
    }
}

/// No component is longer than its path.
proof fn lemma_part_fits(s: Seq<char>, i: int)
    requires
        0 <= i < path_parts(s).len(),
    ensures
        path_parts(s)[i].len() <= s.len(),
{
    let ps = pieces(s, '/');
    assert forall|j: int| 0 <= j < ps.len() implies (#[trigger] ps[j]).len() <= s.len() by {
        lemma_piece_fits(s, '/', j);
    }
    let named = named_parts(ps, ps.len());
    if is_absolute_path(s) {
        reveal_strlit("/");
        if i > 0 {
            lemma_named_fits(ps, ps.len(), s.len(), i - 1);
            assert(path_parts(s)[i] == named[i - 1]);
        }
    } else {
        lemma_named_fits(ps, ps.len(), s.len(), i);
    }
}

proof fn lemma_shortest(s: Seq<char>, parts: Seq<Seq<char>>, n: nat)
    requires
        n <= s.len(),
    ensures
        shortest_with(s, parts, n) == s.len() || path_parts(
            s.take(shortest_with(s, parts, n) as int),
        ) == parts,
        shortest_with(s, parts, n) <= s.len(),
    decreases s.len() - n,
{
    if n < s.len() && path_parts(s.take(n as int)) != parts {
        lemma_shortest(s, parts, n + 1);
    }
}

/// The text of `file` below `root`.
fn strip_root(root: &str, file: &str) -> (out: String)
    ensures
        out@ == below(root@, file@),
{
    let p = components(root);
    let q = components(file);
    let ghost whole = texts(q@);
    let count: usize = p.len();
    if count > q.len() {
        return file.to_string();
    }
    let mut front: Vec<String> = Vec::new();
    let mut i: usize = 0;
    assert(texts(front@) =~= whole.take(0));
    while i < count
        invariant
            count <= q@.len(),
            whole == texts(q@),
            i <= count,
            texts(front@) == whole.take(i as int),
        decreases count - i,
    {
        let ghost before = texts(front@);
        front.push(q[i].clone());
        assert(texts(front@) =~= before.push(whole[i as int]));
        assert(whole.take(i + 1) =~= whole.take(i as int).push(whole[i as int]));
        i = i + 1;
    }
    if !same_texts(&front, &p) {
        return file.to_string();
    }
    if count == q.len() {
        let none = String::new();
        assert(none@ =~= Seq::empty());
        return none;
    }
    let ghost before = texts(front@);
    let name = q[count].clone();
    front.push(q[count].clone());
    assert(texts(front@) =~= before.push(whole[count as int]));
    assert(whole.take(count + 1) =~= whole.take(count as int).push(whole[count as int]));
    let end: usize = shortest(file, &front);
    proof {
        lemma_shortest(file@, texts(front@), 0);
        if end == file@.len() {
            lemma_part_fits(file@, count as int);
        } else {
            lemma_part_fits(file@.take(end as int), count as int);
        }
    }
    let start: usize = end - name.as_str().unicode_len();
    let chars = chars_of(file);
    let rest = text_part(&chars, start, chars.len());
    assert(rest@ =~= file@.skip(start as int));
    let parts = components(rest.as_str());
    let len: usize = shortest(rest.as_str(), &parts);
    let left = chars_of(rest.as_str());
    let out = text_part(&left, 0, len);
    assert(out@ =~= rest@.take(len as int));
    out
}

} // verus!
