//! What a coordinated run expects of the files, and which answers pass.

use vstd::prelude::*;
use vstd::utf8::*;

use crate::coordinator::{
    all_logged, command_line, commands_of, followed, group_commands, records, records_back,
    reply_verdict, together, verification_due,
};
use crate::expected::{
    all_fresh, found_verdict, fresh_verdict, logged, world_report, FileBytes, WorldView,
};
use crate::http_laws::{ends_in, starts_in};
use crate::paths::path_parts;
use crate::scenario::{marker_bytes, marker_text, Mark, MoveView, RunConfig};
use crate::text::{dec, lemma_dec_digits, lemma_dec_injective};
use crate::worker::{step_of_command, CommandView, ReplyView};
use crate::world::{
    bytes_verdict, files_among, first_difference, law_put_is_found, law_unlinked_is_gone, lookup,
    sorted, FileView, FoundEntry, RunError, RunErrorView,
};

verus! {

/// The bytes of the pieces, one behind the other.
pub open spec fn chained(pieces: Seq<Seq<u8>>) -> Seq<u8>
    decreases pieces.len(),
{
    if pieces.len() == 0 {
        Seq::empty()
    } else {
        pieces[0] + chained(pieces.drop_first())
    }
}

/// How many bytes the pieces have together.
pub open spec fn total_len(pieces: Seq<Seq<u8>>) -> nat
    decreases pieces.len(),
{
    if pieces.len() == 0 {
        0
    } else {
        pieces[0].len() + total_len(pieces.drop_first())
    }
}

/// The bytes that a command writes.
pub open spec fn written_by(c: CommandView) -> Seq<u8> {
    match c {
        CommandView::WriteAt { data, .. } => data,
        CommandView::WriteSeq { data, .. } => data,
        CommandView::WriteLog { data, .. } => data,
        _ => Seq::empty(),
    }
}

/// What the workers write that append at once, in their order.
pub open spec fn pieces_of(commands: Seq<(usize, CommandView)>) -> Seq<Seq<u8>> {
    Seq::new(commands.len(), |i: int| written_by(commands[i].1))
}

/// The pieces, the last one first.
pub open spec fn turned(pieces: Seq<Seq<u8>>) -> Seq<Seq<u8>> {
    Seq::new(pieces.len(), |i: int| pieces[pieces.len() - 1 - i])
}

/// What the world expects a file to hold: nothing, where there is none.
pub open spec fn expected_at(files: Seq<FileView>, path: Seq<char>) -> Seq<u8> {
    match lookup(files, path) {
        Some(data) => data,
        None => Seq::empty(),
    }
}

proof fn lemma_group(c: RunConfig, steps: u64, n: nat)
    ensures
        group_commands(c, steps, n).len() == n,
        forall|i: int|
            0 <= i < n ==> #[trigger] group_commands(c, steps, n)[i] == (
                (i + 1) as usize,
                CommandView::WriteSeq {
                    step: (steps + i + 1) as u64,
                    handle: 30,
                    data: marker_bytes(
                        c,
                        (steps + i + 1) as u64,
                        (Mark { worker: (i + 1) as usize, handle: 30, path_id: 3, min_size: 96 }),
                    ),
                },
            ),
    decreases n,
{
    if n > 0 {
        lemma_group(c, steps, (n - 1) as nat);
    }
}

proof fn lemma_chained_push(pieces: Seq<Seq<u8>>, last: Seq<u8>)
    ensures
        chained(pieces.push(last)) == chained(pieces) + last,
        total_len(pieces.push(last)) == total_len(pieces) + last.len(),
        chained(pieces).len() == total_len(pieces),
    decreases pieces.len(),
{
    let more = pieces.push(last);
    if pieces.len() == 0 {
        assert(more.drop_first() =~= pieces);
        assert(chained(more) =~= chained(pieces) + last);
    } else {
        lemma_chained_push(pieces.drop_first(), last);
        assert(more.drop_first() =~= pieces.drop_first().push(last));
        assert(chained(more) =~= chained(pieces) + last);
    }
}

proof fn lemma_records(c: RunConfig, steps: u64, n: nat)
    ensures
        records(c, steps, n) == chained(pieces_of(group_commands(c, steps, n))),
        records_back(c, steps, n) == chained(turned(pieces_of(group_commands(c, steps, n)))),
        records(c, steps, n).len() == total_len(pieces_of(group_commands(c, steps, n))),
        records_back(c, steps, n).len() == total_len(pieces_of(group_commands(c, steps, n))),
    decreases n,
{
    lemma_group(c, steps, n);
    let pieces = pieces_of(group_commands(c, steps, n));
    let back = turned(pieces);
    if n == 0 {
        lemma_chained_push(pieces, Seq::empty());
        assert(back =~= pieces);
    } else {
        lemma_records(c, steps, (n - 1) as nat);
        lemma_group(c, steps, (n - 1) as nat);
        let less = pieces_of(group_commands(c, steps, (n - 1) as nat));
        let last = pieces.last();
        assert(pieces =~= less.push(last));
        lemma_chained_push(less, last);
        lemma_chained_push(pieces, Seq::empty());
        assert(back.drop_first() =~= turned(less));
        assert(back[0] == last);
    }
}

/// Workers that append at once pass just where nothing was lost or mixed: the file holds what
/// it held before and behind it every worker's whole record, in the order of the workers or in
/// the opposite one. So no byte is missing and none is left over.
pub proof fn law_parallel_appends_keep_every_record(
    c: RunConfig,
    steps: u64,
    w: WorldView,
    count: usize,
    read: FileBytes,
)
    requires
        w.handles.dom().contains((1usize, 30u64)),
    ensures
        ({
            let pieces = pieces_of(commands_of(c, steps, MoveView::AppendTogether { count }));
            let before = expected_at(w.files, w.handles[(1usize, 30u64)].path);
            let verdict = together(c, steps, w, count as nat, read).0;
            &&& pieces.len() == count
            &&& verdict is Ok <==> (read matches Ok(actual) && (actual@ == before + chained(pieces)
                || actual@ == before + chained(turned(pieces))))
            &&& verdict is Ok ==> read->Ok_0@.len() == before.len() + total_len(pieces)
        }),
{
    lemma_records(c, steps, count as nat);
    lemma_group(c, steps, count as nat);
}

/// What parallel appends leave: the file is expected to hold what was found, where that passed,
/// and what it held, where it did not. No other file and no handle changes.
pub proof fn law_parallel_appends_leave_what_was_found(
    c: RunConfig,
    steps: u64,
    w: WorldView,
    count: usize,
    read: FileBytes,
    other: Seq<char>,
)
    ensures
        ({
            let (verdict, after) = together(c, steps, w, count as nat, read);
            let path = w.handles[(1usize, 30u64)].path;
            &&& after.handles == w.handles
            &&& path_parts(path) != path_parts(other) ==> lookup(after.files, other) == lookup(
                w.files,
                other,
            )
            &&& expected_at(after.files, path) == if verdict is Ok {
                read->Ok_0@
            } else {
                expected_at(w.files, path)
            }
            &&& !w.handles.dom().contains((1usize, 30u64)) ==> verdict is Err && after == w
            &&& verdict is Ok && w.verified < usize::MAX ==> after.verified == w.verified + 1
            &&& verdict is Err ==> after.verified == w.verified
        }),
{
    let path = w.handles[(1usize, 30u64)].path;
    let before = expected_at(w.files, path);
    let once = crate::world::put(w.files, path, before);
    law_put_is_found(w.files, path, before, path);
    law_put_is_found(w.files, path, before, other);
    if let Ok(actual) = read {
        law_put_is_found(once, path, actual@, path);
        law_put_is_found(once, path, actual@, other);
    }
}

/// Each of the workers that append at once is told once, by its number, to write a record of
/// its own step through its handle.
pub proof fn law_parallel_appends_are_told_to_each(c: RunConfig, steps: u64, count: usize, i: int)
    requires
        0 <= i < count,
        steps + count <= u64::MAX,
    ensures
        ({
            let commands = commands_of(c, steps, MoveView::AppendTogether { count });
            &&& commands.len() == count
            &&& commands[i].0 == i + 1
            &&& commands[i].1 is WriteSeq
            &&& commands[i].1->WriteSeq_step == steps + i + 1
            &&& commands[i].1->WriteSeq_handle == 30
            &&& written_by(commands[i].1) == marker_bytes(
                c,
                (steps + i + 1) as u64,
                (Mark { worker: (i + 1) as usize, handle: 30, path_id: 3, min_size: 96 }),
            )
        }),
{
    lemma_group(c, steps, count as nat);
}

/// The replies pass just where none has an error.
pub proof fn law_replies_pass_without_errors(replies: Seq<ReplyView>, i: nat)
    requires
        i <= replies.len(),
    ensures
        reply_verdict(replies, i) is Ok <==> forall|k: int|
            i <= k < replies.len() ==> (#[trigger] replies[k]).error is None,
    decreases replies.len() - i,
{
    if i < replies.len() {
        law_replies_pass_without_errors(replies, i + 1);
        assert(replies[i as int].error is Some ==> exists|k: int|
            i <= k < replies.len() && (#[trigger] replies[k]).error is Some);
    }
}

/// What a write leaves: the file holds the written bytes where they were written, what it held
/// elsewhere, and zeros in a gap. Other files stay as they were, and so do the handles.
pub proof fn law_write_changes_its_part(
    c: RunConfig,
    step: u64,
    w: WorldView,
    worker: usize,
    handle: u64,
    offset: u64,
    m: Mark,
    data: Seq<u8>,
    i: int,
    other: Seq<char>,
)
    requires
        w.handles.dom().contains((worker, handle)),
        0 <= i,
    ensures
        ({
            let path = w.handles[(worker, handle)].path;
            let (verdict, after) = followed(
                c,
                step,
                w,
                MoveView::Write { worker, handle, offset, mark: m },
                data,
            );
            let old = expected_at(w.files, path);
            let new = expected_at(after.files, path);
            let bytes = marker_bytes(c, step, m);
            &&& verdict is Ok
            &&& lookup(after.files, path) is Some
            &&& new.len() >= old.len() && new.len() >= offset + bytes.len()
            &&& new.len() == old.len() || new.len() == offset + bytes.len()
            &&& i < new.len() ==> new[i] == if offset <= i < offset + bytes.len() {
                bytes[i - offset]
            } else if i < old.len() {
                old[i]
            } else {
                0
            }
            &&& path_parts(other) != path_parts(path) ==> lookup(after.files, other) == lookup(
                w.files,
                other,
            )
            &&& after.handles == w.handles
            &&& after.verified == w.verified
        }),
{
    let path = w.handles[(worker, handle)].path;
    let old = expected_at(w.files, path);
    let new = crate::fsx_laws::spliced(old, offset as int, marker_bytes(c, step, m));
    law_put_is_found(w.files, path, new, path);
    law_put_is_found(w.files, path, new, other);
}

/// What the model expects of a write is what the worker is told to write, but for the step on
/// which an error is to be injected: there the first byte differs, and no other.
pub proof fn law_written_bytes_are_the_expected_ones(
    c: RunConfig,
    steps: u64,
    worker: usize,
    handle: u64,
    offset: u64,
    m: Mark,
    i: int,
)
    requires
        steps < u64::MAX,
    ensures
        ({
            let step = (steps + 1) as u64;
            let commands = commands_of(
                c,
                steps,
                MoveView::Write { worker, handle, offset, mark: m },
            );
            let told = written_by(commands[0].1);
            let meant = marker_bytes(c, step, m);
            &&& commands.len() == 1
            &&& commands[0].0 == worker
            &&& commands[0].1 is WriteAt
            &&& commands[0].1->WriteAt_step == step
            &&& commands[0].1->WriteAt_handle == handle
            &&& commands[0].1->WriteAt_offset == offset
            &&& c.inject != Some(step) ==> told == meant
            &&& told.len() == meant.len()
            &&& 0 <= i < meant.len() ==> (told[i] == meant[i] <==> !(c.inject == Some(step) && i
                == 0))
        }),
{
    let meant = marker_bytes(c, (steps + 1) as u64, m);
    if meant.len() > 0 {
        let first = meant[0];
        assert(first ^ 0xff != first) by (bit_vector);
    }
}

/// What an append leaves: the file holds what it held, and the record behind it, which is the
/// one that the worker is told to write.
pub proof fn law_append_adds_its_record(
    c: RunConfig,
    steps: u64,
    w: WorldView,
    worker: usize,
    handle: u64,
    m: Mark,
    log: bool,
    data: Seq<u8>,
    other: Seq<char>,
)
    requires
        steps < u64::MAX,
        w.handles.dom().contains((worker, handle)),
    ensures
        ({
            let path = w.handles[(worker, handle)].path;
            let step = (steps + 1) as u64;
            let told = if log {
                MoveView::WriteLog { worker, handle, mark: m }
            } else {
                MoveView::Append { worker, handle, mark: m }
            };
            let commands = commands_of(c, steps, told);
            let (verdict, after) = followed(c, step, w, told, data);
            &&& verdict is Ok
            &&& commands.len() == 1 && commands[0].0 == worker
            &&& log ==> commands[0].1 is WriteLog
            &&& !log ==> commands[0].1 is WriteSeq && commands[0].1->WriteSeq_handle == handle
            &&& written_by(commands[0].1) == marker_bytes(c, step, m)
            &&& lookup(after.files, path) == Some(
                expected_at(w.files, path) + written_by(commands[0].1),
            )
            &&& path_parts(other) != path_parts(path) ==> lookup(after.files, other) == lookup(
                w.files,
                other,
            )
            &&& after.handles == w.handles
        }),
{
    let path = w.handles[(worker, handle)].path;
    let new = expected_at(w.files, path) + marker_bytes(c, (steps + 1) as u64, m);
    law_put_is_found(w.files, path, new, path);
    law_put_is_found(w.files, path, new, other);
}

/// A change through a handle that is not open fails and changes nothing.
pub proof fn law_closed_handles_fail(
    c: RunConfig,
    step: u64,
    w: WorldView,
    worker: usize,
    handle: u64,
    m: MoveView,
    data: Seq<u8>,
)
    requires
        !w.handles.dom().contains((worker, handle)),
        match m {
            MoveView::Write { worker: k, handle: h, .. } => k == worker && h == handle,
            MoveView::ReadVerify { worker: k, handle: h, .. } => k == worker && h == handle,
            MoveView::Append { worker: k, handle: h, .. } => k == worker && h == handle,
            MoveView::WriteLog { worker: k, handle: h, .. } => k == worker && h == handle,
            _ => false,
        },
    ensures
        followed(c, step, w, m, data).0 is Err,
        followed(c, step, w, m, data).1 == w,
{
}

/// What opening leaves: the file is empty where it is cut or made, and else as it was; one that
/// is missing and not made stays missing. The handle is open on the path, at its start, and
/// every other handle is as it was.
pub proof fn law_open_makes_its_file(
    c: RunConfig,
    step: u64,
    w: WorldView,
    m: MoveView,
    data: Seq<u8>,
    other: Seq<char>,
    key: (usize, u64),
)
    requires
        m is Open,
    ensures
        ({
            let path = m->Open_path;
            let flags = m->flags;
            let own = (m->Open_worker, m->Open_handle);
            let (verdict, after) = followed(c, step, w, m, data);
            &&& verdict is Ok
            &&& lookup(after.files, path) == if flags.truncate {
                Some(Seq::empty())
            } else if lookup(w.files, path) is Some {
                lookup(w.files, path)
            } else if flags.create || flags.create_new {
                Some(Seq::empty())
            } else {
                None
            }
            &&& path_parts(other) != path_parts(path) ==> lookup(after.files, other) == lookup(
                w.files,
                other,
            )
            &&& after.handles.dom().contains(own)
            &&& after.handles[own].path == path
            &&& after.handles[own].pos == 0
            &&& key != own ==> after.handles.dom().contains(key) == w.handles.dom().contains(key)
            &&& key != own ==> after.handles[key] == w.handles[key]
        }),
{
    let path = m->Open_path;
    law_put_is_found(w.files, path, Seq::empty(), path);
    law_put_is_found(w.files, path, Seq::empty(), other);
}

/// Closing, seeking, switching the log and writing to stderr leave the files as they are, and
/// every handle but the one that they name.
pub proof fn law_files_are_kept(
    c: RunConfig,
    step: u64,
    w: WorldView,
    m: MoveView,
    data: Seq<u8>,
    key: (usize, u64),
)
    requires
        m is Close || m is SeekTo || m is SwitchLog || m is Stderr,
    ensures
        ({
            let (verdict, after) = followed(c, step, w, m, data);
            &&& verdict is Ok
            &&& after.files == w.files
            &&& after.verified == w.verified
            &&& m matches MoveView::Close { worker, handle } ==> if key == (worker, handle) {
                !after.handles.dom().contains(key)
            } else {
                after.handles.dom().contains(key) == w.handles.dom().contains(key)
                    && after.handles[key] == w.handles[key]
            }
            &&& m !is Close ==> after.handles.dom().contains(key) == w.handles.dom().contains(key)
            &&& m !is Close && w.handles.dom().contains(key) ==> after.handles[key].path
                == w.handles[key].path
            &&& w.handles.dom().contains(key) && m !is Close ==> after.handles[key].pos == match m {
                MoveView::SeekTo { worker, handle, offset } => if key == (worker, handle) {
                    offset
                } else {
                    w.handles[key].pos
                },
                _ => w.handles[key].pos,
            }
        }),
{
}

/// What unlinking leaves: the file is gone, and every other is as it was. Handles stay open.
pub proof fn law_unlink_removes_its_file(
    c: RunConfig,
    step: u64,
    w: WorldView,
    worker: usize,
    path: Seq<char>,
    data: Seq<u8>,
    other: Seq<char>,
)
    requires
        sorted(w.files),
    ensures
        ({
            let (verdict, after) = followed(c, step, w, MoveView::Unlink { worker, path }, data);
            &&& verdict is Ok
            &&& lookup(after.files, path) is None
            &&& path_parts(other) != path_parts(path) ==> lookup(after.files, other) == lookup(
                w.files,
                other,
            )
            &&& after.handles == w.handles
        }),
{
    law_unlinked_is_gone(w.files, path, path);
    law_unlinked_is_gone(w.files, path, other);
}

/// What renaming leaves: what the file held is at its new name and nothing at its old one, the
/// handles that were open on it are open on the new name, at the place where they were, and
/// all else is as it was.
pub proof fn law_rename_takes_handles_along(
    c: RunConfig,
    step: u64,
    w: WorldView,
    worker: usize,
    from: Seq<char>,
    to: Seq<char>,
    data: Seq<u8>,
    other: Seq<char>,
    key: (usize, u64),
)
    requires
        sorted(w.files),
        path_parts(from) != path_parts(to),
    ensures
        ({
            let (verdict, after) = followed(
                c,
                step,
                w,
                MoveView::Rename { worker, from, to },
                data,
            );
            &&& verdict is Ok
            &&& lookup(after.files, from) is None
            &&& lookup(after.files, to) == if lookup(w.files, from) is Some {
                lookup(w.files, from)
            } else {
                lookup(w.files, to)
            }
            &&& path_parts(other) != path_parts(from) && path_parts(other) != path_parts(to)
                ==> lookup(after.files, other) == lookup(w.files, other)
            &&& after.handles.dom().contains(key) == w.handles.dom().contains(key)
            &&& w.handles.dom().contains(key) ==> after.handles[key].pos == w.handles[key].pos
            &&& w.handles.dom().contains(key) ==> after.handles[key].path == if path_parts(
                w.handles[key].path,
            ) == path_parts(from) {
                to
            } else {
                w.handles[key].path
            }
        }),
{
    let left = crate::world::without(w.files, from);
    law_unlinked_is_gone(w.files, from, from);
    law_unlinked_is_gone(w.files, from, to);
    law_unlinked_is_gone(w.files, from, other);
    if let Some(held) = lookup(w.files, from) {
        law_put_is_found(left, to, held, to);
        law_put_is_found(left, to, held, from);
        law_put_is_found(left, to, held, other);
    }
}

/// A read passes just where it gave every byte that the file is expected to hold in the part,
/// up to the end of the file. Nothing changes but the count of what was verified.
pub proof fn law_read_passes_on_the_right_bytes(
    c: RunConfig,
    step: u64,
    w: WorldView,
    worker: usize,
    handle: u64,
    offset: u64,
    size: usize,
    data: Seq<u8>,
)
    requires
        w.handles.dom().contains((worker, handle)),
    ensures
        ({
            let file = expected_at(w.files, w.handles[(worker, handle)].path);
            let (verdict, after) = followed(
                c,
                step,
                w,
                MoveView::ReadVerify { worker, handle, offset, size },
                data,
            );
            &&& verdict is Ok <==> {
                &&& data.len() <= size
                &&& offset + data.len() <= file.len() || data.len() == 0
                &&& data.len() == size || offset + data.len() >= file.len()
                &&& forall|i: int| 0 <= i < data.len() ==> #[trigger] data[i] == file[offset + i]
            }
            &&& after.files == w.files && after.handles == w.handles
            &&& verdict is Ok && w.verified < usize::MAX ==> after.verified == w.verified + 1
            &&& verdict is Err ==> after.verified == w.verified
        }),
{
    let file = expected_at(w.files, w.handles[(worker, handle)].path);
    let part = crate::coordinator::part_at(file, offset as int, size as int);
    let right = {
        &&& data.len() <= size
        &&& offset + data.len() <= file.len() || data.len() == 0
        &&& data.len() == size || offset + data.len() >= file.len()
        &&& forall|i: int| 0 <= i < data.len() ==> #[trigger] data[i] == file[offset + i]
    };
    if right {
        assert(data =~= part);
    }
    if part == data {
        assert forall|i: int| 0 <= i < data.len() implies #[trigger] data[i] == file[offset
            + i] by {
            assert(part[i] == file[offset + i]);
        }
    }
}

/// A fresh read of a whole file passes just where the file is expected and holds what is
/// expected, byte for byte. It changes no file and no handle.
pub proof fn law_fresh_read_passes_on_the_right_bytes(
    c: RunConfig,
    step: u64,
    w: WorldView,
    worker: usize,
    path: Seq<char>,
    data: Seq<u8>,
)
    ensures
        ({
            let (verdict, after) = followed(
                c,
                step,
                w,
                MoveView::FreshVerify { worker, path },
                data,
            );
            &&& verdict is Ok <==> lookup(w.files, path) == Some(data)
            &&& after.files == w.files && after.handles == w.handles
            &&& w.verified < usize::MAX ==> after.verified == w.verified + 1
        }),
{
}

/// What a write put into a file, a read of that part through any handle on the file passes just
/// with those bytes.
pub proof fn law_written_bytes_are_verified(
    c: RunConfig,
    step: u64,
    w: WorldView,
    worker: usize,
    handle: u64,
    offset: u64,
    m: Mark,
    later: u64,
    reader: usize,
    other: u64,
    data: Seq<u8>,
)
    requires
        w.handles.dom().contains((worker, handle)),
        w.handles.dom().contains((reader, other)),
        path_parts(w.handles[(worker, handle)].path) == path_parts(w.handles[(reader, other)].path),
    ensures
        ({
            let bytes = marker_bytes(c, step, m);
            let after = followed(
                c,
                step,
                w,
                MoveView::Write { worker, handle, offset, mark: m },
                Seq::empty(),
            ).1;
            followed(
                c,
                later,
                after,
                MoveView::ReadVerify {
                    worker: reader,
                    handle: other,
                    offset,
                    size: bytes.len() as usize,
                },
                data,
            ).0 is Ok <==> data == bytes
        }),
{
    let bytes = marker_bytes(c, step, m);
    let path = w.handles[(worker, handle)].path;
    let old = expected_at(w.files, path);
    let new = crate::fsx_laws::spliced(old, offset as int, bytes);
    let after = followed(
        c,
        step,
        w,
        MoveView::Write { worker, handle, offset, mark: m },
        Seq::empty(),
    ).1;
    law_put_is_found(w.files, path, new, w.handles[(reader, other)].path);
    assert(expected_at(after.files, w.handles[(reader, other)].path) == new);
    law_read_passes_on_the_right_bytes(
        c,
        later,
        after,
        reader,
        other,
        offset,
        bytes.len() as usize,
        data,
    );
    if followed(
        c,
        later,
        after,
        MoveView::ReadVerify { worker: reader, handle: other, offset, size: bytes.len() as usize },
        data,
    ).0 is Ok {
        assert(data.len() == bytes.len());
        assert forall|i: int| 0 <= i < data.len() implies data[i] == bytes[i] by {
            assert(data[i] == new[offset + i]);
        }
        assert(data =~= bytes);
    }
    if data == bytes {
        assert forall|i: int| 0 <= i < data.len() implies #[trigger] data[i] == new[offset + i] by {
        }
    }
}

/// All files are verified after a move that asks for it, and after opening, closing, writing
/// and reading on every step that is a multiple of the number set, if one is set.
pub proof fn law_verification_is_due(c: RunConfig, steps: u64, m: MoveView)
    ensures
        m is VerifyAll ==> verification_due(c, steps, m),
        m is Open || m is Close || m is Write || m is ReadVerify ==> (verification_due(c, steps, m)
            <==> c.verify_every is Some && c.verify_every->0 > 0 && exists|k: int|
            #[trigger] (k * c.verify_every->0) == steps),
        !(m is VerifyAll || m is Open || m is Close || m is Write || m is ReadVerify)
            ==> !verification_due(c, steps, m),
{
    if let Some(every) = c.verify_every {
        if every > 0 {
            let e = every as int;
            let s = steps as int;
            if s % e == 0 {
                vstd::arithmetic::div_mod::lemma_fundamental_div_mod(s, e);
                assert((s / e) * e == s) by (nonlinear_arith)
                    requires
                        s == e * (s / e) + s % e,
                        s % e == 0,
                ;
                assert((s / e) * c.verify_every->0 == steps);
            }
            assert forall|k: int| #[trigger] (k * c.verify_every->0) == steps implies s % e == 0 by {
                vstd::arithmetic::div_mod::lemma_mod_multiples_basic(k, e);
            }
        }
    }
}

/// The files that a world has pass just where each was read and holds what is expected of it.
pub proof fn law_files_pass_when_all_are_right(files: Seq<FileView>, reads: Seq<FileBytes>, i: nat)
    requires
        files.len() == reads.len(),
        i <= files.len(),
    ensures
        fresh_verdict(files, reads, i).0 is Ok <==> forall|k: int|
            i <= k < files.len() ==> (#[trigger] reads[k] matches Ok(actual) && actual@
                == files[k].data),
        fresh_verdict(files, reads, i).0 is Ok ==> fresh_verdict(files, reads, i).1 == files.len()
            - i,
    decreases files.len() - i,
{
    if i < files.len() {
        law_files_pass_when_all_are_right(files, reads, i + 1);
        let one = reads[i as int] matches Ok(actual) && actual@ == files[i as int].data;
        if !one {
            assert(!(reads[i as int] matches Ok(actual) && actual@ == files[i as int].data));
        }
    }
}

/// The files that were found pass just where each is one that the world has.
pub proof fn law_found_files_pass_when_all_are_known(
    files: Seq<FileView>,
    found: Seq<Seq<char>>,
    i: nat,
)
    requires
        i <= found.len(),
    ensures
        found_verdict(files, found, i) is Ok <==> forall|k: int|
            i <= k < found.len() ==> lookup(files, #[trigger] found[k]) is Some,
    decreases found.len() - i,
{
    if i < found.len() {
        law_found_files_pass_when_all_are_known(files, found, i + 1);
        if lookup(files, found[i as int]) is None {
            assert(lookup(files, found[i as int]) is None);
        }
    }
}

/// A verification of all files passes just where every file of the world was read and holds
/// what is expected, and every file found under the root is one of them.
pub proof fn law_verification_finds_everything(
    v: WorldView,
    reads: Seq<FileBytes>,
    found: Result<Vec<String>, RunError>,
)
    requires
        reads.len() == v.files.len(),
    ensures
        all_fresh(v, reads, found) is Ok <==> {
            &&& forall|k: int|
                0 <= k < v.files.len() ==> (#[trigger] reads[k] matches Ok(actual) && actual@
                    == v.files[k].data)
            &&& found matches Ok(paths) && forall|k: int|
                0 <= k < paths@.len() ==> lookup(v.files, (#[trigger] paths@[k])@) is Some
        },
{
    law_files_pass_when_all_are_right(v.files, reads, 0);
    if let Ok(paths) = found {
        let names = crate::text::texts(paths@);
        law_found_files_pass_when_all_are_known(v.files, names, 0);
        if forall|k: int| 0 <= k < names.len() ==> lookup(v.files, #[trigger] names[k]) is Some {
            assert forall|k: int| 0 <= k < paths@.len() implies lookup(
                v.files,
                (#[trigger] paths@[k])@,
            ) is Some by {
                assert(names[k] == paths@[k]@);
            }
        }
    }
}

/// What the world expects of a file is found under every spelling of its path, and only there.
pub proof fn law_files_are_found_by_their_path(files: Seq<FileView>, i: int, path: Seq<char>)
    requires
        sorted(files),
        0 <= i < files.len(),
        path_parts(files[i].path) == path_parts(path),
    ensures
        lookup(files, path) == Some(files[i].data),
    decreases files.len(),
{
    if i > 0 {
        let rest = files.drop_first();
        crate::pathorder::law_paths_are_ordered(files[0].path, files[i].path, path);
        assert forall|a: int, b: int| 0 <= a < b < rest.len() implies crate::pathorder::path_before(
            #[trigger] rest[a].path,
            #[trigger] rest[b].path,
        ) by {
            assert(rest[a] == files[a + 1]);
            assert(rest[b] == files[b + 1]);
        }
        assert(rest[i - 1] == files[i]);
        law_files_are_found_by_their_path(rest, i - 1, path);
    }
}

/// A path that is none of those of the files has no contents.
pub proof fn law_other_paths_have_no_contents(files: Seq<FileView>, path: Seq<char>)
    requires
        forall|i: int|
            0 <= i < files.len() ==> path_parts(#[trigger] files[i].path) != path_parts(path),
    ensures
        lookup(files, path) is None,
    decreases files.len(),
{
    if files.len() > 0 {
        let rest = files.drop_first();
        assert forall|i: int| 0 <= i < rest.len() implies path_parts(#[trigger] rest[i].path)
            != path_parts(path) by {
            assert(rest[i] == files[i + 1]);
        }
        law_other_paths_have_no_contents(rest, path);
    }
}

/// The command of a move goes to the worker of the move, with its number, and names what the
/// move names.
pub proof fn law_commands_say_what_the_move_says(c: RunConfig, steps: u64, m: MoveView)
    requires
        steps < u64::MAX,
        m !is AppendTogether,
        m !is VerifyAll,
    ensures
        ({
            let commands = commands_of(c, steps, m);
            let told = commands[0].1;
            &&& commands.len() == 1
            &&& match m {
                MoveView::Open { worker, handle, path, flags } => {
                    &&& commands[0].0 == worker
                    &&& told is Open && told->Open_handle == handle && told->Open_path == path
                    &&& told->flags == flags
                },
                MoveView::Close { worker, handle } => {
                    &&& commands[0].0 == worker
                    &&& told is Close && told->Close_handle == handle
                },
                MoveView::ReadVerify { worker, handle, offset, size } => {
                    &&& commands[0].0 == worker
                    &&& told is ReadAt && told->ReadAt_handle == handle
                    &&& told->ReadAt_offset == offset && told->ReadAt_size == size
                },
                MoveView::FreshVerify { worker, path } => {
                    &&& commands[0].0 == worker
                    &&& told is VerifyPath && told->VerifyPath_path == path
                },
                MoveView::SeekTo { worker, handle, offset } => {
                    &&& commands[0].0 == worker
                    &&& told is Seek && told->Seek_handle == handle && told->Seek_offset == offset
                },
                MoveView::Unlink { worker, path } => {
                    &&& commands[0].0 == worker
                    &&& told is Unlink && told->Unlink_path == path
                },
                MoveView::Rename { worker, from, to } => {
                    &&& commands[0].0 == worker
                    &&& told is Rename && told->from == from && told->to == to
                },
                MoveView::SwitchLog { worker, sink } => {
                    &&& commands[0].0 == worker
                    &&& told is SwitchLogSink && told->sink == sink
                },
                MoveView::Stderr { worker } => commands[0].0 == worker && told is WriteStderr,
                MoveView::Write { worker, .. } => commands[0].0 == worker && told is WriteAt,
                MoveView::Append { worker, .. } => commands[0].0 == worker && told is WriteSeq,
                MoveView::WriteLog { worker, .. } => commands[0].0 == worker && told is WriteLog,
                _ => true,
            }
        }),
{
}

/// A marker has as many bytes as asked for, within the limits of the run and at least one, and
/// repeats its text.
pub proof fn law_markers_repeat_their_text(c: RunConfig, step: u64, m: Mark, i: int)
    ensures
        ({
            let bytes = marker_bytes(c, step, m);
            let text = encode_utf8(marker_text(c.seed, step, m));
            &&& bytes.len() >= 1
            &&& m.min_size >= 1 ==> bytes.len() <= m.min_size
            &&& c.opsize_max >= 1 ==> bytes.len() <= c.opsize_max
            &&& c.flen >= 1 ==> bytes.len() <= c.flen
            &&& bytes.len() == 1 || bytes.len() == m.min_size || bytes.len() == c.opsize_max
                || bytes.len() == c.flen
            &&& 0 <= i < bytes.len() && i < text.len() ==> bytes[i] == text[i]
            &&& 0 <= i && i + text.len() < bytes.len() && text.len() > 0 ==> bytes[i + text.len()]
                == bytes[i]
        }),
{
    let text = encode_utf8(marker_text(c.seed, step, m));
    if text.len() > 0 && 0 <= i {
        if i < text.len() {
            vstd::arithmetic::div_mod::lemma_small_mod(i as nat, text.len());
        }
        vstd::arithmetic::div_mod::lemma_mod_add_multiples_vanish(i, text.len() as int);
    }
}

/// Where a run of digits ends, the rest begins.
proof fn lemma_number_then_rest(n: nat, a: Seq<char>, m: nat, b: Seq<char>)
    requires
        dec(n) + a == dec(m) + b,
        a.len() > 0,
        b.len() > 0,
        a[0] == ' ',
        b[0] == ' ',
    ensures
        n == m,
        a == b,
{
    lemma_dec_digits(n);
    lemma_dec_digits(m);
    let whole = dec(n) + a;
    let other = dec(m) + b;
    if dec(n).len() < dec(m).len() {
        assert(whole[dec(n).len() as int] == ' ');
        assert(other[dec(n).len() as int] == dec(m)[dec(n).len() as int]);
    } else if dec(m).len() < dec(n).len() {
        assert(other[dec(m).len() as int] == ' ');
        assert(whole[dec(m).len() as int] == dec(n)[dec(m).len() as int]);
    }
    assert(dec(n) =~= whole.take(dec(n).len() as int));
    assert(dec(m) =~= other.take(dec(n).len() as int));
    lemma_dec_injective(n, m);
    assert(a =~= whole.skip(dec(n).len() as int));
    assert(b =~= other.skip(dec(n).len() as int));
}

proof fn lemma_same_front(front: Seq<char>, a: Seq<char>, b: Seq<char>)
    requires
        front + a == front + b,
    ensures
        a == b,
{
    assert(a =~= (front + a).skip(front.len() as int));
    assert(b =~= (front + b).skip(front.len() as int));
}

proof fn lemma_regrouped(
    p: Seq<Seq<char>>,
    a: Seq<char>,
    b: Seq<char>,
    c: Seq<char>,
    d: Seq<char>,
    e: Seq<char>,
)
    requires
        p.len() == 6,
    ensures
        p[0] + a + p[1] + b + p[2] + c + p[3] + d + p[4] + e + p[5] == p[0] + (a + (p[1] + (b + (p[2]
            + (c + (p[3] + (d + (p[4] + (e + p[5]))))))))),
{
    assert(p[0] + a + p[1] + b + p[2] + c + p[3] + d + p[4] + e + p[5] =~= p[0] + (a + (p[1] + (b
        + (p[2] + (c + (p[3] + (d + (p[4] + (e + p[5]))))))))));
}

/// A marker's text tells its step, its worker, its handle, its file and the seed: markers that
/// differ in one of these have different texts.
pub proof fn law_markers_tell_writes_apart(
    seed: u64,
    step: u64,
    m: Mark,
    other_seed: u64,
    other_step: u64,
    other: Mark,
)
    requires
        marker_text(seed, step, m) == marker_text(other_seed, other_step, other),
    ensures
        seed == other_seed,
        step == other_step,
        m.worker == other.worker,
        m.handle == other.handle,
        m.path_id == other.path_id,
{
    reveal_strlit("FSXMARK step=");
    reveal_strlit(" worker=");
    reveal_strlit(" handle=");
    reveal_strlit(" path=");
    reveal_strlit(" seed=");
    reveal_strlit(" ");
    let e1 = " "@;
    let d1 = " seed="@ + (dec(seed as nat) + e1);
    let d2 = " seed="@ + (dec(other_seed as nat) + e1);
    let c1 = " path="@ + (dec(m.path_id as nat) + d1);
    let c2 = " path="@ + (dec(other.path_id as nat) + d2);
    let b1 = " handle="@ + (dec(m.handle as nat) + c1);
    let b2 = " handle="@ + (dec(other.handle as nat) + c2);
    let a1 = " worker="@ + (dec(m.worker as nat) + b1);
    let a2 = " worker="@ + (dec(other.worker as nat) + b2);
    let p = seq!["FSXMARK step="@, " worker="@, " handle="@, " path="@, " seed="@, " "@];
    lemma_regrouped(
        p,
        dec(step as nat),
        dec(m.worker as nat),
        dec(m.handle as nat),
        dec(m.path_id as nat),
        dec(seed as nat),
    );
    lemma_regrouped(
        p,
        dec(other_step as nat),
        dec(other.worker as nat),
        dec(other.handle as nat),
        dec(other.path_id as nat),
        dec(other_seed as nat),
    );
    lemma_same_front("FSXMARK step="@, dec(step as nat) + a1, dec(other_step as nat) + a2);
    lemma_number_then_rest(step as nat, a1, other_step as nat, a2);
    lemma_same_front(" worker="@, dec(m.worker as nat) + b1, dec(other.worker as nat) + b2);
    lemma_number_then_rest(m.worker as nat, b1, other.worker as nat, b2);
    lemma_same_front(" handle="@, dec(m.handle as nat) + c1, dec(other.handle as nat) + c2);
    lemma_number_then_rest(m.handle as nat, c1, other.handle as nat, c2);
    lemma_same_front(" path="@, dec(m.path_id as nat) + d1, dec(other.path_id as nat) + d2);
    lemma_number_then_rest(m.path_id as nat, d1, other.path_id as nat, d2);
    lemma_same_front(" seed="@, dec(seed as nat) + e1, dec(other_seed as nat) + e1);
    lemma_number_then_rest(seed as nat, e1, other_seed as nat, e1);
}

/// The first difference is the first place at which the bytes differ.
pub proof fn law_first_difference_is_the_first(a: Seq<u8>, b: Seq<u8>, i: nat)
    requires
        a.len() == b.len(),
        i <= a.len(),
    ensures
        ({
            let first = first_difference(a, b, i);
            &&& i <= first <= a.len()
            &&& first < a.len() ==> a[first as int] != b[first as int]
            &&& forall|k: int| i <= k < first ==> #[trigger] a[k] == b[k]
        }),
    decreases a.len() - i,
{
    if i < a.len() && a[i as int] == b[i as int] {
        law_first_difference_is_the_first(a, b, i + 1);
    }
}

/// Wrong contents are told apart: of another length, or with a byte that differs.
pub proof fn law_wrong_contents_are_told_apart(path: Seq<char>, expected: Seq<u8>, actual: Seq<u8>)
    requires
        expected != actual,
    ensures
        bytes_verdict(path, expected, actual) matches Err(e) && e.category == (if expected.len()
            != actual.len() {
            "wrong-size"@
        } else {
            "wrong-bytes"@
        }) && starts_in(e.message, path),
{
    let message = bytes_verdict(path, expected, actual)->Err_0.message;
    assert(message.take(path.len() as int) =~= path);
}

/// The files that a walk came by are its entries that are files, in their order.
pub proof fn law_walks_come_by_files(entries: Seq<FoundEntry>)
    ensures
        files_among(entries) == entries.filter(
            |e: FoundEntry| e.is_file && !e.is_dir,
        ).map_values(|e: FoundEntry| e.path@),
    decreases entries.len(),
{
    reveal(Seq::filter);
    let kept = entries.filter(|e: FoundEntry| e.is_file && !e.is_dir);
    if entries.len() > 0 {
        law_walks_come_by_files(entries.drop_last());
    }
    assert(files_among(entries) =~= kept.map_values(|e: FoundEntry| e.path@));
}

/// The log has its last five hundred and twelve lines, the newest last.
pub proof fn law_log_has_its_last_lines(log: Seq<Seq<char>>, line: Seq<char>, i: int)
    requires
        log.len() <= 512,
    ensures
        ({
            let after = logged(log, line);
            &&& after.last() == line
            &&& after.len() == if log.len() < 512 {
                log.len() + 1
            } else {
                512
            }
            &&& 0 <= i < after.len() - 1 ==> after[i] == log[i + log.len() + 1 - after.len()]
        }),
{
}

/// The line about a command begins with its step and its worker.
pub proof fn law_commands_are_logged_with_their_step(worker: usize, c: CommandView)
    ensures
        starts_in(
            command_line(worker, c),
            dec(step_of_command(c) as nat) + ": worker="@ + dec(worker as nat) + " cmd="@,
        ),
{
    let front = dec(step_of_command(c) as nat) + ": worker="@ + dec(worker as nat) + " cmd="@;
    assert(command_line(worker, c).take(front.len() as int) =~= front);
}

/// Commands are logged in their order, each with its line: behind those of the first ones
/// stands that of the next.
pub proof fn law_commands_are_logged_in_order(
    log: Seq<Seq<char>>,
    commands: Seq<(usize, CommandView)>,
    n: nat,
    i: int,
)
    requires
        log.len() + n <= 512,
        n <= commands.len(),
        0 <= i < n,
    ensures
        all_logged(log, commands, n).len() == log.len() + n,
        all_logged(log, commands, n).take(log.len() as int) == log,
        all_logged(log, commands, n)[log.len() + i] == command_line(commands[i].0, commands[i].1),
    decreases n,
{
    let after = all_logged(log, commands, n);
    if i < n - 1 {
        law_commands_are_logged_in_order(log, commands, (n - 1) as nat, i);
    } else if n > 1 {
        law_commands_are_logged_in_order(log, commands, (n - 1) as nat, n - 2);
    } else {
        assert(all_logged(log, commands, 0) == log);
    }
    let before = all_logged(log, commands, (n - 1) as nat);
    assert(before.take(log.len() as int) =~= log);
    assert(after.take(log.len() as int) =~= log);
}

/// A report of a failure names its category, the scenario, the seed and what went wrong, and
/// holds every line of the log.
pub proof fn law_failures_are_reported(v: WorldView, e: RunErrorView, scenario: Seq<char>, seed: u64)
    ensures
        starts_in(
            world_report(v, e, scenario, seed),
            "category="@ + e.category + "\nscenario="@ + scenario + "\nseed="@ + dec(seed as nat)
                + "\nmessage="@ + e.message + "\nLOG DUMP\n"@,
        ),
        v.log.len() > 0 ==> ends_in(
            world_report(v, e, scenario, seed),
            v.log.last() + seq!['\n'],
        ),
{
    let text = world_report(v, e, scenario, seed);
    let front = "category="@ + e.category + "\nscenario="@ + scenario + "\nseed="@ + dec(
        seed as nat,
    ) + "\nmessage="@ + e.message + "\nLOG DUMP\n"@;
    assert(text.take(front.len() as int) =~= front);
    if v.log.len() > 0 {
        let tail = v.log.last() + seq!['\n'];
        assert(text.skip(text.len() - tail.len()) =~= tail);
    }
}

} // verus!
