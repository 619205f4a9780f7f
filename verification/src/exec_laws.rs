//! What the records of a run say of the files and of the host's answers.

use vstd::prelude::*;

use crate::errors::{error_kind, IoFailure};
use crate::exec::{
    answers, recorded_files, request_of, result_of, snapshot_of, worker_after, FdSlot, FdTarget,
    Outcome, RequestView, WorkerView,
};
use crate::fixtures::fixture_place;
use crate::hash::fnv;
use crate::http_laws::stands_at;
use crate::listing::{in_order, inserted, listed_names, DirName};
use crate::ops::{FileId, Op, OpenMode};
use crate::report::SnapshotView;
use crate::result::OracleErr;
use crate::text::{ascii_lower, begins, has_word};
use crate::verify::{has_snapshot, shared_snapshots, snapshot_verdict, snapshotted_count};

verus! {

/// A snapshot is one that the file itself passes: the file, read again as it was, is found to
/// be as recorded, wherever it lies.
pub proof fn law_snapshot_is_passed_by_its_file(
    case_id: usize,
    name: Seq<char>,
    file: FileId,
    bytes: Seq<u8>,
    path: Seq<char>,
)
    requires
        bytes.len() <= u64::MAX,
    ensures
        snapshot_verdict(
            snapshot_of(case_id, name, file, Some(bytes)),
            path,
            true,
            Ok(bytes),
        ) is Ok,
        snapshot_of(case_id, name, file, Some(bytes)).exists,
        snapshot_of(case_id, name, file, Some(bytes)).len == bytes.len(),
        snapshot_of(case_id, name, file, Some(bytes)).hash == fnv(bytes),
{
}

/// A file that is not there is recorded as missing, and passes just while it is missing.
pub proof fn law_snapshot_of_nothing_is_passed_by_nothing(
    case_id: usize,
    name: Seq<char>,
    file: FileId,
    path: Seq<char>,
    exists: bool,
    data: Result<Seq<u8>, Seq<char>>,
)
    ensures
        !snapshot_of(case_id, name, file, None).exists,
        snapshot_verdict(snapshot_of(case_id, name, file, None), path, exists, data) is Ok
            <==> !exists,
{
}

/// The snapshot of a file is passed just by contents of the same length and hash.
pub proof fn law_snapshot_is_passed_by_no_other_contents(
    case_id: usize,
    name: Seq<char>,
    file: FileId,
    bytes: Seq<u8>,
    path: Seq<char>,
    exists: bool,
    data: Result<Seq<u8>, Seq<char>>,
)
    requires
        bytes.len() <= u64::MAX,
    ensures
        snapshot_verdict(snapshot_of(case_id, name, file, Some(bytes)), path, exists, data) is Ok
            <==> (data matches Ok(found) && found.len() == bytes.len() && fnv(found) == fnv(
            bytes,
        )),
{
}

/// Contents of different lengths or hashes make different snapshots, and so do a file and none,
/// files of different names, and cases of different numbers.
pub proof fn law_snapshots_tell_contents_apart(
    case_id: usize,
    other_id: usize,
    name: Seq<char>,
    file: FileId,
    other_file: FileId,
    a: Option<Seq<u8>>,
    b: Option<Seq<u8>>,
)
    requires
        a matches Some(bytes) ==> bytes.len() <= u64::MAX,
        b matches Some(bytes) ==> bytes.len() <= u64::MAX,
        snapshot_of(case_id, name, file, a) == snapshot_of(other_id, name, other_file, b),
    ensures
        case_id == other_id,
        file == other_file,
        match (a, b) {
            (Some(x), Some(y)) => x.len() == y.len() && fnv(x) == fnv(y),
            (None, None) => true,
            _ => false,
        },
{
}

/// A snapshot names the case and the file: its path is the case's name, a slash and the name
/// of the file.
pub proof fn law_snapshot_lies_in_its_case(
    case_id: usize,
    name: Seq<char>,
    file: FileId,
    data: Option<Seq<u8>>,
)
    requires
        file is A || file is B,
    ensures
        ({
            let rel = snapshot_of(case_id, name, file, data).rel;
            &&& rel.len() == name.len() + 2
            &&& rel.take(name.len() as int) == name
            &&& rel[name.len() as int] == '/'
            &&& rel.last() == if file is A {
                'A'
            } else {
                'B'
            }
        }),
{
    reveal_strlit("/");
    reveal_strlit("A");
    reveal_strlit("B");
    let rel = snapshot_of(case_id, name, file, data).rel;
    assert(rel.take(name.len() as int) =~= name);
}

proof fn lemma_prime_is_invertible(a: u64, b: u64)
    requires
        (a * 0x100000001b3) % 0x1_0000_0000_0000_0000 == (b * 0x100000001b3)
            % 0x1_0000_0000_0000_0000,
    ensures
        a == b,
{
    let m: int = 0x1_0000_0000_0000_0000;
    let p: int = 0x100000001b3;
    let inv: int = 0xce965057aff6957b;
    let x = a as int;
    let y = b as int;
    vstd::arithmetic::div_mod::lemma_mul_mod_noop_left(x * p, inv, m);
    vstd::arithmetic::div_mod::lemma_mul_mod_noop_left(y * p, inv, m);
    assert((x * p * inv) % m == (y * p * inv) % m);
    let q: int = (p * inv) / m;
    assert(p * inv == q * m + 1) by {
        assert((0x100000001b3int * 0xce965057aff6957bint) % 0x1_0000_0000_0000_0000int == 1);
        vstd::arithmetic::div_mod::lemma_fundamental_div_mod(p * inv, m);
        assert(m * q == q * m) by (nonlinear_arith);
    }
    assert(x * p * inv == (x * q) * m + x) by (nonlinear_arith)
        requires
            p * inv == q * m + 1,
    ;
    assert(y * p * inv == (y * q) * m + y) by (nonlinear_arith)
        requires
            p * inv == q * m + 1,
    ;
    vstd::arithmetic::div_mod::lemma_fundamental_div_mod_converse(x * p * inv, m, x * q, x);
    vstd::arithmetic::div_mod::lemma_fundamental_div_mod_converse(y * p * inv, m, y * q, y);
}

/// One changed byte is always found: contents of one length that differ in a single place have
/// different hashes.
pub proof fn law_one_changed_byte_changes_the_hash(a: Seq<u8>, b: Seq<u8>, place: int)
    requires
        a.len() == b.len(),
        0 <= place < a.len(),
        a[place] != b[place],
        forall|i: int| 0 <= i < a.len() && i != place ==> a[i] == b[i],
    ensures
        fnv(a) != fnv(b),
    decreases a.len(),
{
    let less_a = a.drop_last();
    let less_b = b.drop_last();
    let ha = fnv(less_a);
    let hb = fnv(less_b);
    let la = a.last() as u64;
    let lb = b.last() as u64;
    if place < a.len() - 1 {
        law_one_changed_byte_changes_the_hash(less_a, less_b, place);
        assert(ha != hb && la == lb ==> ha ^ la != hb ^ lb) by (bit_vector);
    } else {
        assert(less_a =~= less_b);
        assert(ha == hb && la != lb ==> ha ^ la != hb ^ lb) by (bit_vector);
    }
    if fnv(a) == fnv(b) {
        lemma_prime_is_invertible(ha ^ la, hb ^ lb);
    }
}

/// So a snapshot is not passed by a file with one byte changed.
pub proof fn law_changed_file_fails_its_snapshot(
    case_id: usize,
    name: Seq<char>,
    file: FileId,
    bytes: Seq<u8>,
    found: Seq<u8>,
    place: int,
    path: Seq<char>,
)
    requires
        bytes.len() <= u64::MAX,
        bytes.len() == found.len(),
        0 <= place < bytes.len(),
        bytes[place] != found[place],
        forall|i: int| 0 <= i < bytes.len() && i != place ==> bytes[i] == found[i],
    ensures
        snapshot_verdict(
            snapshot_of(case_id, name, file, Some(bytes)),
            path,
            true,
            Ok(found),
        ) is Err,
{
    law_one_changed_byte_changes_the_hash(bytes, found, place);
}

/// Every case records the two persistent files, and besides them just the fixtures that one of
/// its operations opens, none twice.
pub proof fn law_recorded_files(chain: Seq<Op>, file: FileId)
    ensures
        recorded_files(chain).contains(file) <==> match file {
            FileId::A | FileId::B => true,
            FileId::C => false,
            FileId::Fixture1 | FileId::Fixture2 => exists|i: int|
                0 <= i < chain.len() && (#[trigger] chain[i]) is Open && chain[i]->Open_file
                    == file,
        },
        recorded_files(chain).no_duplicates(),
        recorded_files(chain)[0] is A,
        recorded_files(chain)[1] is B,
{
    let all = recorded_files(chain);
    assert(all[0] is A && all[1] is B);
    assert(all.len() <= 4);
    if crate::exec::opens(chain, FileId::Fixture1) {
        assert(all[2] is Fixture1);
        if crate::exec::opens(chain, FileId::Fixture2) {
            assert(all[3] is Fixture2);
        }
    } else if crate::exec::opens(chain, FileId::Fixture2) {
        assert(all[2] is Fixture2);
    }
}

/// What was read is recorded whole: the bytes themselves, and how many they are.
pub proof fn law_read_bytes_are_recorded(op: Op, bytes: Vec<u8>, wasm: bool)
    requires
        bytes@.len() <= i64::MAX,
    ensures
        result_of(op, Outcome::Data(bytes), wasm).data == bytes@,
        result_of(op, Outcome::Data(bytes), wasm).rc == bytes@.len(),
        result_of(op, Outcome::Data(bytes), wasm).err is NoErr,
{
}

/// How many bytes were written, a position and a length are recorded as they are.
pub proof fn law_counts_are_recorded(op: Op, n: u64, wasm: bool)
    requires
        n <= i64::MAX,
    ensures
        result_of(op, Outcome::Count(n), wasm).rc == n,
        result_of(op, Outcome::Count(n), wasm).err is NoErr,
        result_of(op, Outcome::Count(n), wasm).data.len() == 0,
{
}

/// A failure is recorded as one: with -1, an error and no bytes. A success never is.
pub proof fn law_failures_are_recorded(op: Op, outcome: Outcome, wasm: bool)
    requires
        answers(op, outcome),
    ensures
        result_of(op, outcome, wasm).err is NoErr <==> outcome !is Failed,
        outcome is Failed ==> result_of(op, outcome, wasm).rc == -1 && result_of(
            op,
            outcome,
            wasm,
        ).data.len() == 0,
{
}

/// Where an operation succeeds without a count or bytes, a duplicate returns 0, a write to
/// stderr the length of what it emits, and all others -1.
pub proof fn law_plain_successes(op: Op, outcome: Outcome, wasm: bool)
    requires
        answers(op, outcome),
        outcome is Kept || outcome is ClosedRaw || outcome is Finished,
    ensures
        result_of(op, outcome, wasm).data.len() == 0,
        result_of(op, outcome, wasm).rc == match op {
            Op::Dup { .. } => 0int,
            Op::WriteStderr => 77,
            _ => -1,
        },
{
}

/// The kind of a failure decides what is recorded, but for a bad descriptor, which its text or
/// its number may tell. No two kinds are recorded as one.
pub proof fn law_failures_keep_their_kind(e: IoFailure, f: IoFailure, wasm: bool)
    ensures
        error_kind(e, wasm) !is NoErr,
        error_kind(e, wasm) !is BadFd && error_kind(f, wasm) !is BadFd ==> (error_kind(e, wasm)
            == error_kind(f, wasm) <==> e.kind == f.kind),
        error_kind(e, wasm) is NotFound ==> e.kind is NotFound,
        e.kind is NotFound ==> error_kind(e, wasm) is NotFound || error_kind(e, wasm) is BadFd,
        error_kind(e, wasm) is Other ==> e.kind is Other,
        error_kind(e, wasm) is PermissionDenied ==> e.kind is PermissionDenied,
        error_kind(e, wasm) is AlreadyExists ==> e.kind is AlreadyExists,
        error_kind(e, wasm) is InvalidInput ==> e.kind is InvalidInput,
        error_kind(e, wasm) is InvalidData ==> e.kind is InvalidData,
        error_kind(e, wasm) is UnexpectedEof ==> e.kind is UnexpectedEof,
        error_kind(e, wasm) is WriteZero ==> e.kind is WriteZero,
        error_kind(e, wasm) is Interrupted ==> e.kind is Interrupted,
        error_kind(e, wasm) is Unsupported ==> e.kind is Unsupported,
        e.errno == Some(9i32) ==> error_kind(e, wasm) is BadFd,
        e.errno == Some(8i32) && wasm ==> error_kind(e, wasm) is BadFd,
        e.message@ == f.message@ && e.kind == f.kind && e.errno == Some(8i32) && f.errno is None
            && !wasm ==> error_kind(e, wasm) == error_kind(f, wasm),
{
}

/// What a worker has opened is what its later operations on that slot ask for; once closed, the
/// slot still asks for the descriptor that it had, and closing it again fails.
pub proof fn law_slots_hold_what_was_opened(
    w: WorkerView,
    slot: usize,
    file: FileId,
    mode: OpenMode,
    kept: u64,
    raw: i32,
    root: Seq<char>,
    fixture_root: Seq<char>,
    id: usize,
    op: Op,
)
    requires
        slot < w.slots.len(),
        op is Write || op is Read || op is Seek || op is Fstat || op is Dup || op is Close,
        op.slot_of() == Some(slot),
    ensures
        ({
            let opened = worker_after(w, Op::Open { slot, file, mode }, Outcome::Kept(kept));
            let closed = worker_after(opened, Op::Close { slot }, Outcome::ClosedRaw(raw));
            let now = request_of(opened.slots, op, root, fixture_root, id);
            let later = request_of(closed.slots, op, root, fixture_root, id);
            let target = FdTarget::Kept(kept);
            let stale = FdTarget::Raw(raw);
            match op {
                Op::Write { payload, .. } => {
                    &&& now is Write && now->Write_target == target
                    &&& later is Write && later->Write_target == stale
                    &&& now->Write_bytes == later->Write_bytes
                    &&& now->Write_bytes.len() == payload.size()
                    &&& forall|i: int|
                        0 <= i < now->Write_bytes.len() ==> (#[trigger] now->Write_bytes[i]
                            == if slot == 0 {
                            65u8
                        } else {
                            66u8
                        })
                },
                Op::Read { size, .. } => {
                    &&& now is Read && now->Read_target == target && now->Read_len == size.size()
                    &&& later is Read && later->Read_target == stale && later->Read_len
                        == size.size()
                },
                Op::Seek { target: to, .. } => {
                    &&& now is Seek && now->Seek_target == target && now->to == to
                    &&& later is Seek && later->Seek_target == stale && later->to == to
                },
                Op::Fstat { .. } => {
                    &&& now is Fstat && now->Fstat_target == target
                    &&& later is Fstat && later->Fstat_target == stale
                },
                Op::Dup { .. } => {
                    &&& now is Dup && now->Dup_target == target
                    &&& later is Dup && later->Dup_target == stale
                },
                _ => {
                    &&& now is Close && now->Close_file == kept
                    &&& later is Done && later->result.err is BadFd && later->result.rc == -1
                        && later->result.data.len() == 0
                },
            }
        }),
{
}

/// A duplicate asks for what the host kept for it, and the slot that it was made from for what
/// it asked before.
pub proof fn law_duplicates_have_their_own_slot(
    w: WorkerView,
    from: usize,
    to: usize,
    kept: u64,
    slot: usize,
)
    requires
        from < w.slots.len(),
        to < w.slots.len(),
        slot < w.slots.len(),
    ensures
        ({
            let after = worker_after(
                w,
                Op::Dup { src_slot: from, dst_slot: to },
                Outcome::Kept(kept),
            );
            &&& after.slots[to as int] == FdSlot::Open(kept)
            &&& slot != to ==> after.slots[slot as int] == w.slots[slot as int]
            &&& after.slots.len() == w.slots.len()
        }),
{
}

/// An operation on a slot in which nothing was ever opened fails without asking the host.
pub proof fn law_unopened_slots_fail(
    slots: Seq<FdSlot>,
    op: Op,
    root: Seq<char>,
    fixture_root: Seq<char>,
    id: usize,
)
    requires
        op !is Open,
        op.slot_of() matches Some(slot) && slot < slots.len() && slots[slot as int] is NeverOpened,
    ensures
        ({
            let request = request_of(slots, op, root, fixture_root, id);
            request is Done && request->result.err is BadFd && request->result.rc == -1
                && request->result.data.len() == 0
        }),
{
}

/// A failure and an operation that opens, duplicates and closes nothing leave the slots as they
/// are, and every operation the slots that it does not name.
pub proof fn law_other_slots_are_kept(w: WorkerView, op: Op, outcome: Outcome, slot: int)
    requires
        0 <= slot < w.slots.len(),
        op.slot_of() matches Some(s) ==> s < w.slots.len(),
        op matches Op::Dup { dst_slot, .. } ==> dst_slot < w.slots.len(),
    ensures
        outcome is Failed || !(op is Open || op is Dup || op is Close) ==> worker_after(
            w,
            op,
            outcome,
        ) == w,
        !(op matches Op::Open { slot: s, .. } && s == slot) && !(op matches Op::Close { slot: s }
            && s == slot) && !(op matches Op::Dup { dst_slot, .. } && dst_slot == slot)
            ==> worker_after(w, op, outcome).slots[slot] == w.slots[slot],
{
}

/// Opening, deleting and asking for a file name one path, that of the file in its case; a
/// fixture's is the same whatever the case. A listing is of the directory of the case.
pub proof fn law_one_path_for_each_file(
    slots: Seq<FdSlot>,
    slot: usize,
    mode: OpenMode,
    file: FileId,
    root: Seq<char>,
    other_root: Seq<char>,
    fixture_root: Seq<char>,
    id: usize,
)
    ensures
        ({
            let open = request_of(
                slots,
                Op::Open { slot, file, mode },
                root,
                fixture_root,
                id,
            );
            let delete = request_of(slots, Op::Delete { file }, root, fixture_root, id);
            let stat = request_of(slots, Op::Stat { file }, root, fixture_root, id);
            let elsewhere = request_of(slots, Op::Stat { file }, other_root, fixture_root, id);
            &&& open is Open && delete is Delete && stat is Stat && elsewhere is Stat
            &&& open->mode == mode
            &&& open->Open_path == delete->Delete_path
            &&& open->Open_path == stat->Stat_path
            &&& file is Fixture1 || file is Fixture2 ==> stat->Stat_path == fixture_place(
                fixture_root,
                id,
                file,
            ) && elsewhere->Stat_path == stat->Stat_path
            &&& (file is A || file is B) && root.len() > 0 && root.last() != '/'
                ==> stat->Stat_path == root + (if file is A {
                seq!['/', 'A']
            } else {
                seq!['/', 'B']
            })
        }),
        request_of(slots, Op::ReadDir, root, fixture_root, id) == (RequestView::ReadDir {
            path: root,
        }),
{
    reveal_strlit("/");
    reveal_strlit("A");
    reveal_strlit("B");
    let stat = request_of(slots, Op::Stat { file }, root, fixture_root, id);
    if file is A && root.len() > 0 && root.last() != '/' {
        assert(stat->Stat_path =~= root + seq!['/', 'A']);
    }
    if file is B && root.len() > 0 && root.last() != '/' {
        assert(stat->Stat_path =~= root + seq!['/', 'B']);
    }
}

/// Whether the name counts in a listing: all do but those that a network filesystem leaves of
/// deleted files.
pub open spec fn left_behind(name: DirName) -> bool {
    let t = name.text@;
    name.exact && t.len() >= 4 && t[0] == '.' && t[1] == 'n' && t[2] == 'f' && t[3] == 's'
}

proof fn lemma_inserted(s: Seq<Seq<char>>, t: Seq<char>)
    ensures
        inserted(s, t).to_multiset() =~= s.to_multiset().insert(t),
    decreases s.len(),
{
    broadcast use vstd::seq_lib::group_to_multiset_ensures;

    if s.len() == 0 {
        assert(inserted(s, t) =~= s.push(t));
    } else if !crate::listing::texts_in_order(s.last(), t) {
        lemma_inserted(s.drop_last(), t);
        assert(s.drop_last().push(s.last()) =~= s);
    }
}

proof fn lemma_in_order(s: Seq<Seq<char>>)
    ensures
        in_order(s).to_multiset() =~= s.to_multiset(),
    decreases s.len(),
{
    broadcast use vstd::seq_lib::group_to_multiset_ensures;

    if s.len() > 0 {
        lemma_in_order(s.drop_last());
        lemma_inserted(in_order(s.drop_last()), s.last());
        assert(s.drop_last().push(s.last()) =~= s);
    } else {
        assert(in_order(s) =~= s);
    }
}

/// A listing has each name that counts, as often as the directory has it, and no other.
pub proof fn law_listing_has_every_name(names: Seq<DirName>)
    ensures
        in_order(listed_names(names)).to_multiset() == names.filter(
            |name: DirName| !left_behind(name),
        ).map_values(|name: DirName| name.text@).to_multiset(),
{
    lemma_in_order(listed_names(names));
    lemma_listed(names);
}

proof fn lemma_listed(names: Seq<DirName>)
    ensures
        listed_names(names) == names.filter(|name: DirName| !left_behind(name)).map_values(
            |name: DirName| name.text@,
        ),
    decreases names.len(),
{
    reveal(Seq::filter);
    let kept = names.filter(|name: DirName| !left_behind(name));
    if names.len() > 0 {
        let last = names.last();
        lemma_listed(names.drop_last());
        reveal_strlit(".nfs");
        let t = last.text@;
        if begins(t, ".nfs"@) {
            assert(t.take(4)[0] == '.' && t.take(4)[1] == 'n' && t.take(4)[2] == 'f' && t.take(4)[3]
                == 's');
        } else if t.len() >= 4 && t[0] == '.' && t[1] == 'n' && t[2] == 'f' && t[3] == 's' {
            assert(t.take(4) =~= ".nfs"@);
        }
        assert(listed_names(names) =~= kept.map_values(|name: DirName| name.text@));
    } else {
        assert(listed_names(names) =~= kept.map_values(|name: DirName| name.text@));
    }
}

/// The native snapshots that the files of the other run are held to are just those of the two
/// persistent files of which the other report has one too, each once and in their order.
pub proof fn law_shared_snapshots(native: Seq<SnapshotView>, wasix: Seq<SnapshotView>, n: nat)
    requires
        n <= native.len(),
    ensures
        ({
            let places = shared_snapshots(native, wasix, n);
            &&& forall|a: int, b: int|
                0 <= a < b < places.len() ==> #[trigger] places[a] < #[trigger] places[b]
            &&& forall|a: int| 0 <= a < places.len() ==> 0 <= #[trigger] places[a] < n
            &&& forall|i: int|
                0 <= i < n ==> (#[trigger] places.contains(i) <==> (native[i].file is A
                    || native[i].file is B) && exists|j: int|
                    0 <= j < wasix.len() && (#[trigger] wasix[j]).case_id == native[i].case_id
                        && wasix[j].file == native[i].file)
        }),
    decreases n,
{
    let places = shared_snapshots(native, wasix, n);
    if n > 0 {
        law_shared_snapshots(native, wasix, (n - 1) as nat);
        let before = shared_snapshots(native, wasix, (n - 1) as nat);
        let s = native[n - 1];
        let wanted = (s.file is A || s.file is B) && has_snapshot(wasix, s.case_id, s.file);
        assert forall|i: int| 0 <= i < n implies (#[trigger] places.contains(i) <==> (
        native[i].file is A || native[i].file is B) && exists|j: int|
            0 <= j < wasix.len() && (#[trigger] wasix[j]).case_id == native[i].case_id
                && wasix[j].file == native[i].file) by {
            if wanted {
                assert(places == before.push(n - 1));
                assert(places[before.len() as int] == n - 1);
                if i < n - 1 {
                    if before.contains(i) {
                        let a = choose|a: int| 0 <= a < before.len() && before[a] == i;
                        assert(places[a] == i);
                    }
                    if places.contains(i) {
                        let a = choose|a: int| 0 <= a < places.len() && places[a] == i;
                        assert(before[a] == i);
                    }
                }
            } else if i == n - 1 && places.contains(i) {
                let a = choose|a: int| 0 <= a < places.len() && places[a] == i;
                assert(before[a] == i);
            }
        }
    }
}

/// Whether the word stands in the text, whatever the case of the letters.
pub open spec fn says(text: Seq<char>, word: Seq<char>) -> bool {
    exists|k: int| #[trigger] stands_at(ascii_lower(text), word, k)
}

/// A failure is one of a bad descriptor just where its text says so, or its number does: nine,
/// or eight where the numbers are those of WebAssembly.
pub proof fn law_bad_descriptors_are_told(e: IoFailure, wasm: bool)
    ensures
        error_kind(e, wasm) is BadFd <==> {
            ||| says(e.message@, "bad file descriptor"@)
            ||| says(e.message@, "badf"@)
            ||| e.errno == Some(9i32)
            ||| wasm && e.errno == Some(8i32)
        },
{
    lemma_says(e.message@, "bad file descriptor"@);
    lemma_says(e.message@, "badf"@);
}

proof fn lemma_says(text: Seq<char>, word: Seq<char>)
    ensures
        says(text, word) <==> has_word(ascii_lower(text), word),
{
    let s = ascii_lower(text);
    if says(text, word) {
        let k = choose|k: int| #[trigger] stands_at(s, word, k);
        assert(s.subrange(k, k + word.len()) == word);
    }
    if has_word(s, word) {
        let k = choose|k: int|
            0 <= k <= s.len() - word.len() && #[trigger] s.subrange(k, k + word.len()) == word;
        assert(stands_at(s, word, k));
    }
}

/// As many snapshots count as are of the two persistent files.
pub proof fn law_counted_snapshots(snapshots: Seq<SnapshotView>)
    ensures
        snapshotted_count(snapshots) == snapshots.filter(
            |s: SnapshotView| s.file is A || s.file is B,
        ).len(),
    decreases snapshots.len(),
{
    reveal(Seq::filter);
    if snapshots.len() > 0 {
        law_counted_snapshots(snapshots.drop_last());
    }
}

/// The files have names of their own, and so have the kinds of failure.
pub proof fn law_names_differ(a: FileId, b: FileId, e: OracleErr, f: OracleErr)
    ensures
        a.name_text() == b.name_text() ==> a == b,
        e.name_text() == f.name_text() ==> e == f,
{
    reveal_strlit("A");
    reveal_strlit("B");
    reveal_strlit("C");
    reveal_strlit("F1");
    reveal_strlit("F2");
    reveal_strlit("None");
    reveal_strlit("NotFound");
    reveal_strlit("PermissionDenied");
    reveal_strlit("AlreadyExists");
    reveal_strlit("InvalidInput");
    reveal_strlit("InvalidData");
    reveal_strlit("UnexpectedEof");
    reveal_strlit("WriteZero");
    reveal_strlit("Interrupted");
    reveal_strlit("Unsupported");
    reveal_strlit("BadFd");
    reveal_strlit("Other");
    if a.name_text() == b.name_text() {
        assert(a.name_text().last() == b.name_text().last());
    }
    if e.name_text() == f.name_text() {
        assert(e.name_text().len() == f.name_text().len());
        assert(e.name_text()[0] == f.name_text()[0]);
        assert(e.name_text().last() == f.name_text().last());
    }
}

} // verus!
