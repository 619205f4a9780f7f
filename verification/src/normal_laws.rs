//! Laws of the normal form: it is stable, it keeps the order of the steps, and cases
//! that differ by names alone share it.

use vstd::prelude::*;

use crate::normal::{
    case_shaped, dropped, file_renamed, fresh_case, kept, lemma_taken_two, normal, opened_by,
    renamed_slot, slots_renamed, step_exists, steps_exist, taken, CaseView,
};
use crate::ops::{FileId, Op, FD_SLOTS, WORKERS};
use crate::schedule::ScheduledStep;

verus! {

/// Whether the numbers that `m` gives are zero and up, each once.
spec fn numbered(m: Seq<Option<usize>>) -> bool {
    &&& m.len() == 2
    &&& m[0] matches Some(n) ==> n < taken(m)
    &&& m[1] matches Some(n) ==> n < taken(m)
    &&& m[0] is Some && m[1] is Some ==> m[0] != m[1]
}

/// Whether `m` gives the first places their own numbers, as many as `count`.
spec fn own_numbers(m: Seq<Option<usize>>, count: nat) -> bool {
    &&& m.len() == 2
    &&& m[0] == (if count >= 1 {
        Some(0usize)
    } else {
        None
    })
    &&& m[1] == (if count >= 2 {
        Some(1usize)
    } else {
        None
    })
}

/// Whether a worker's slots, once renamed, stand where the renaming puts them.
spec fn row_mirrors(
    sa: Seq<Option<usize>>,
    oa: Seq<bool>,
    sb: Seq<Option<usize>>,
    ob: Seq<bool>,
) -> bool {
    &&& numbered(sa)
    &&& own_numbers(sb, taken(sa))
    &&& oa.len() == 2
    &&& ob.len() == 2
    &&& forall|s: int| 0 <= s < 2 && #[trigger] oa[s] ==> sa[s] is Some
    &&& forall|s: int|
        0 <= s < 2 && (#[trigger] sa[s]) is Some ==> ob[sa[s]->0 as int] == oa[s]
}

spec fn files_mirror(fa: Seq<Option<FileId>>, fb: Seq<Option<FileId>>) -> bool {
    &&& fa.len() == 2
    &&& fb.len() == 2
    &&& fa[0] matches Some(f) ==> f == FileId::A || (f == FileId::B && fa[1] is Some)
    &&& fa[1] matches Some(f) ==> f == FileId::A || (f == FileId::B && fa[0] is Some)
    &&& fa[0] is Some && fa[1] is Some ==> fa[0] != fa[1]
    &&& fb[0] == (if taken(fa) >= 1 {
        Some(FileId::A)
    } else {
        None
    })
    &&& fb[1] == (if taken(fa) >= 2 {
        Some(FileId::B)
    } else {
        None
    })
}

/// Whether `b` is the state of the renamed steps where `a` is that of the steps.
spec fn mirrors(a: CaseView, b: CaseView) -> bool {
    &&& case_shaped(a)
    &&& case_shaped(b)
    &&& files_mirror(a.files, b.files)
    &&& forall|w: int|
        0 <= w < WORKERS ==> row_mirrors(
            #[trigger] a.slots[w],
            a.opened[w],
            b.slots[w],
            b.opened[w],
        )
}

proof fn lemma_row_rename(
    sa: Seq<Option<usize>>,
    oa: Seq<bool>,
    sb: Seq<Option<usize>>,
    ob: Seq<bool>,
    slot: usize,
)
    requires
        row_mirrors(sa, oa, sb, ob),
        slot < 2,
        sa[slot as int] is None ==> forall|j: int| taken(sa) <= j < 2 ==> !#[trigger] ob[j],
    ensures
        ({
            let (n, sa1) = renamed_slot(sa, slot);
            let (m, sb1) = renamed_slot(sb, n);
            &&& n < 2
            &&& m == n
            &&& sa1[slot as int] == Some(n)
            &&& row_mirrors(sa1, oa, sb1, ob)
            &&& sa1.len() == 2
            &&& (sa[1 - slot] is Some ==> sa1[1 - slot] == sa[1 - slot])
            &&& (taken(sa1) >= taken(sa))
        }),
{
    let (n, sa1) = renamed_slot(sa, slot);
    let (m, sb1) = renamed_slot(sb, n);
    lemma_taken_two(sa);
    lemma_taken_two(sb);
    lemma_taken_two(sa1);
    lemma_taken_two(sb1);
}

proof fn lemma_row_open(
    sa: Seq<Option<usize>>,
    oa: Seq<bool>,
    sb: Seq<Option<usize>>,
    ob: Seq<bool>,
    slot: usize,
)
    requires
        row_mirrors(sa, oa, sb, ob),
        slot < 2,
        sa[slot as int] is Some,
    ensures
        row_mirrors(sa, oa.update(slot as int, true), sb, ob.update(sa[slot as int]->0 as int, true)),
{
    lemma_taken_two(sa);
}

/// Whether no place that the renaming has not given out is open.
spec fn unnamed_closed(sa: Seq<Option<usize>>, ob: Seq<bool>) -> bool {
    forall|j: int| taken(sa) <= j < 2 ==> !#[trigger] ob[j]
}

proof fn lemma_file_rename(fa: Seq<Option<FileId>>, fb: Seq<Option<FileId>>, op: Op)
    requires
        files_mirror(fa, fb),
    ensures
        ({
            let (op1, fa1) = file_renamed(fa, op);
            let (op2, fb1) = file_renamed(fb, op1);
            op2 == op1 && files_mirror(fa1, fb1)
        }),
{
    lemma_taken_two(fa);
    lemma_taken_two(fb);
    let (op1, fa1) = file_renamed(fa, op);
    let (op2, fb1) = file_renamed(fb, op1);
    lemma_taken_two(fa1);
    lemma_taken_two(fb1);
    assert(fb1 =~= fb || fb1 == fb.update(0, Some(FileId::A)) || fb1 == fb.update(
        1,
        Some(FileId::B),
    ));
}

/// Renaming a kept step once more changes nothing, and the states still mirror.
proof fn lemma_step_mirrors(a: CaseView, b: CaseView, step: ScheduledStep)
    requires
        mirrors(a, b),
        forall|w: int| 0 <= w < WORKERS ==> unnamed_closed(#[trigger] a.slots[w], b.opened[w]),
        step_exists(step),
        !dropped(a, step),
    ensures
        ({
            let (new, a1) = kept(a, step);
            let (again, b1) = kept(b, new);
            &&& step_exists(new)
            &&& !dropped(b, new)
            &&& again == new
            &&& mirrors(a1, b1)
            &&& forall|w: int| 0 <= w < WORKERS ==> unnamed_closed(#[trigger] a1.slots[w], b1.opened[w])
        }),
{
    let (new, a1) = kept(a, step);
    let (again, b1) = kept(b, new);
    let w = step.worker as int;
    if step.op.slot_of() is Some {
        let slot = step.op.slot_of()->0;
        let sa = a.slots[w];
        let sb = b.slots[w];
        let oa = a.opened[w];
        let ob = b.opened[w];
        assert(row_mirrors(sa, oa, sb, ob));
        assert(unnamed_closed(sa, ob));
        lemma_row_rename(sa, oa, sb, ob, slot);
        let (n, sa1) = renamed_slot(sa, slot);
        let (m, sb1) = renamed_slot(sb, n);
        lemma_taken_two(sa);
        lemma_taken_two(sa1);
        if let Op::Dup { src_slot, dst_slot } = step.op {
            lemma_row_rename(sa1, oa, sb1, ob, dst_slot);
            let (n2, sa2) = renamed_slot(sa1, dst_slot);
            let (m2, sb2) = renamed_slot(sb1, n2);
            lemma_taken_two(sa2);
            lemma_row_open(sa2, oa, sb2, ob, dst_slot);
            lemma_file_rename(a.files, b.files, new.op);
            assert(a1.slots =~= a.slots.update(w, sa2));
            assert(b1.slots =~= b.slots.update(w, sb2));
            assert(unnamed_closed(sa2, ob.update(n2 as int, true)));
            assert(mirrors(a1, b1));
        } else {
            let op1 = step.op.on_slot(n);
            lemma_file_rename(a.files, b.files, op1);
            assert(a1.slots =~= a.slots.update(w, sa1));
            assert(b1.slots =~= b.slots.update(w, sb1));
            if step.op is Open {
                lemma_row_open(sa1, oa, sb1, ob, slot);
                assert(unnamed_closed(sa1, ob.update(n as int, true)));
            } else {
                assert(a1.opened[w] =~= oa);
                assert(b1.opened[w] =~= ob);
                assert(unnamed_closed(sa1, ob));
            }
            assert(mirrors(a1, b1));
        }
    } else {
        lemma_file_rename(a.files, b.files, step.op);
        assert(mirrors(a1, b1));
    }
}

proof fn lemma_mirrors_all(steps: Seq<ScheduledStep>)
    requires
        steps_exist(steps),
    ensures
        ({
            let (out, a) = normal(steps);
            let (again, b) = normal(out);
            &&& steps_exist(out)
            &&& again == out
            &&& mirrors(a, b)
            &&& forall|w: int| 0 <= w < WORKERS ==> unnamed_closed(#[trigger] a.slots[w], b.opened[w])
        }),
    decreases steps.len(),
{
    if steps.len() == 0 {
        let f = fresh_case();
        assert(taken(f.slots[0]) == 0) by {
            lemma_taken_two(f.slots[0]);
        }
        assert(taken(f.slots[1]) == 0) by {
            lemma_taken_two(f.slots[1]);
        }
        lemma_taken_two(f.files);
        assert(f.slots[0] == f.slots[1]);
    } else {
        assert(step_exists(steps.last()));
        assert(steps_exist(steps.drop_last())) by {
            assert forall|i: int| 0 <= i < steps.drop_last().len() implies step_exists(
                #[trigger] steps.drop_last()[i],
            ) by {
                assert(step_exists(steps[i]));
            }
        }
        lemma_mirrors_all(steps.drop_last());
        let (before, a) = normal(steps.drop_last());
        let (again, b) = normal(before);
        if !dropped(a, steps.last()) {
            lemma_step_mirrors(a, b, steps.last());
            let (new, a1) = kept(a, steps.last());
            assert(before.push(new).drop_last() =~= before);
            assert(before.push(new).last() == new);
        }
    }
}

/// A normal form is its own normal form.
pub proof fn law_normal_form_is_stable(steps: Seq<ScheduledStep>)
    requires
        steps_exist(steps),
    ensures
        normal(normal(steps).0).0 == normal(steps).0,
        steps_exist(normal(steps).0),
{
    lemma_mirrors_all(steps);
}

/// What a renaming of names alone does to a slot: it may swap the two.
pub open spec fn swapped_slot(swap: bool, slot: usize) -> usize {
    if swap && slot < 2 {
        (1 - slot) as usize
    } else {
        slot
    }
}

/// What a renaming of names alone does to a file: it may swap the persistent two.
pub open spec fn swapped_file(swap: bool, file: FileId) -> FileId {
    match file {
        FileId::A => if swap {
            FileId::B
        } else {
            FileId::A
        },
        FileId::B => if swap {
            FileId::A
        } else {
            FileId::B
        },
        _ => file,
    }
}

/// A step under a renaming of its worker's slots and of the persistent files.
pub open spec fn swapped_step(
    slots: spec_fn(usize) -> bool,
    files: bool,
    step: ScheduledStep,
) -> ScheduledStep {
    let s = slots(step.worker);
    let op = match step.op {
        Op::Dup { src_slot, dst_slot } => Op::Dup {
            src_slot: swapped_slot(s, src_slot),
            dst_slot: swapped_slot(s, dst_slot),
        },
        _ => match step.op.slot_of() {
            Some(slot) => step.op.on_slot(swapped_slot(s, slot)),
            None => step.op,
        },
    };
    let op = match op.file_of() {
        Some(file) => op.on_file(swapped_file(files, file)),
        None => op,
    };
    ScheduledStep { worker: step.worker, op }
}

pub open spec fn swapped_steps(
    slots: spec_fn(usize) -> bool,
    files: bool,
    steps: Seq<ScheduledStep>,
) -> Seq<ScheduledStep> {
    steps.map_values(|step: ScheduledStep| swapped_step(slots, files, step))
}

spec fn swapped_row<T>(swap: bool, row: Seq<T>) -> Seq<T> {
    if swap {
        seq![row[1], row[0]]
    } else {
        row
    }
}

/// Whether `b` is `a` under the renaming.
spec fn swapped_view(slots: spec_fn(usize) -> bool, files: bool, a: CaseView, b: CaseView) -> bool {
    &&& case_shaped(a)
    &&& case_shaped(b)
    &&& b.files == swapped_row(files, a.files)
    &&& forall|w: int|
        0 <= w < WORKERS ==> b.slots[w] == swapped_row(slots(w as usize), #[trigger] a.slots[w])
    &&& forall|w: int|
        0 <= w < WORKERS ==> b.opened[w] == swapped_row(slots(w as usize), #[trigger] a.opened[w])
}

proof fn lemma_swapped_rename(swap: bool, m: Seq<Option<usize>>, slot: usize)
    requires
        m.len() == 2,
        slot < 2,
    ensures
        renamed_slot(swapped_row(swap, m), swapped_slot(swap, slot)).0 == renamed_slot(m, slot).0,
        renamed_slot(swapped_row(swap, m), swapped_slot(swap, slot)).1 == swapped_row(
            swap,
            renamed_slot(m, slot).1,
        ),
{
    lemma_taken_two(m);
    lemma_taken_two(swapped_row(swap, m));
    assert(renamed_slot(swapped_row(swap, m), swapped_slot(swap, slot)).1 =~= swapped_row(
        swap,
        renamed_slot(m, slot).1,
    ));
}

proof fn lemma_swapped_file(swap: bool, m: Seq<Option<FileId>>, op: Op)
    requires
        m.len() == 2,
    ensures
        ({
            let other = match op.file_of() {
                Some(file) => op.on_file(swapped_file(swap, file)),
                None => op,
            };
            let (op1, m1) = file_renamed(m, op);
            let (op2, m2) = file_renamed(swapped_row(swap, m), other);
            op1 == op2 && m2 == swapped_row(swap, m1) && m1.len() == 2
        }),
{
    lemma_taken_two(m);
    lemma_taken_two(swapped_row(swap, m));
    let other = match op.file_of() {
        Some(file) => op.on_file(swapped_file(swap, file)),
        None => op,
    };
    let (op1, m1) = file_renamed(m, op);
    let (op2, m2) = file_renamed(swapped_row(swap, m), other);
    assert(m2 =~= swapped_row(swap, m1));
}

proof fn lemma_swapped_step(
    slots: spec_fn(usize) -> bool,
    files: bool,
    a: CaseView,
    b: CaseView,
    step: ScheduledStep,
)
    requires
        swapped_view(slots, files, a, b),
        step_exists(step),
    ensures
        ({
            let other = swapped_step(slots, files, step);
            let (new, a1) = kept(a, step);
            let (same, b1) = kept(b, other);
            &&& dropped(a, step) == dropped(b, other)
            &&& same == new
            &&& swapped_view(slots, files, a1, b1)
        }),
{
    let other = swapped_step(slots, files, step);
    let (new, a1) = kept(a, step);
    let (same, b1) = kept(b, other);
    let w = step.worker as int;
    let s = slots(step.worker);
    if step.op.slot_of() is Some {
        let slot = step.op.slot_of()->0;
        assert(b.slots[w] == swapped_row(s, a.slots[w]));
        assert(b.opened[w] == swapped_row(s, a.opened[w]));
        lemma_swapped_rename(s, a.slots[w], slot);
        let (n, sa1) = renamed_slot(a.slots[w], slot);
        let (m, sb1) = renamed_slot(b.slots[w], swapped_slot(s, slot));
        if let Op::Dup { src_slot, dst_slot } = step.op {
            lemma_swapped_rename(s, sa1, dst_slot);
            lemma_swapped_file(files, a.files, slots_renamed(a.slots[w], step.op).0);
            assert(opened_by(b.opened[w], other.op) =~= swapped_row(
                s,
                opened_by(a.opened[w], step.op),
            ));
        } else {
            lemma_swapped_file(files, a.files, step.op.on_slot(n));
            assert(opened_by(b.opened[w], other.op) =~= swapped_row(
                s,
                opened_by(a.opened[w], step.op),
            ));
        }
        assert(swapped_view(slots, files, a1, b1));
    } else {
        lemma_swapped_file(files, a.files, step.op);
        assert(swapped_view(slots, files, a1, b1));
    }
}

proof fn lemma_swapped_all(
    slots: spec_fn(usize) -> bool,
    files: bool,
    steps: Seq<ScheduledStep>,
)
    requires
        steps_exist(steps),
    ensures
        normal(swapped_steps(slots, files, steps)).0 == normal(steps).0,
        swapped_view(slots, files, normal(steps).1, normal(swapped_steps(slots, files, steps)).1),
    decreases steps.len(),
{
    let others = swapped_steps(slots, files, steps);
    if steps.len() == 0 {
        let f = fresh_case();
        assert forall|w: int| 0 <= w < WORKERS implies f.slots[w] == swapped_row(
            slots(w as usize),
            #[trigger] f.slots[w],
        ) by {
            assert(f.slots[w] =~= swapped_row(slots(w as usize), f.slots[w]));
        }
        assert forall|w: int| 0 <= w < WORKERS implies f.opened[w] == swapped_row(
            slots(w as usize),
            #[trigger] f.opened[w],
        ) by {
            assert(f.opened[w] =~= swapped_row(slots(w as usize), f.opened[w]));
        }
        assert(f.files =~= swapped_row(files, f.files));
        assert(normal(others) == normal(steps));
    } else {
        assert(step_exists(steps.last()));
        assert(steps_exist(steps.drop_last())) by {
            assert forall|i: int| 0 <= i < steps.drop_last().len() implies step_exists(
                #[trigger] steps.drop_last()[i],
            ) by {
                assert(step_exists(steps[i]));
            }
        }
        lemma_swapped_all(slots, files, steps.drop_last());
        assert(others.drop_last() =~= swapped_steps(slots, files, steps.drop_last()));
        assert(others.last() == swapped_step(slots, files, steps.last()));
        lemma_swapped_step(
            slots,
            files,
            normal(steps.drop_last()).1,
            normal(others.drop_last()).1,
            steps.last(),
        );
    }
}

/// Cases that differ only in how each worker numbers its slots and in which of the
/// persistent files is called which have the same normal form.
pub proof fn law_names_do_not_matter(
    slots: spec_fn(usize) -> bool,
    files: bool,
    steps: Seq<ScheduledStep>,
)
    requires
        steps_exist(steps),
    ensures
        normal(swapped_steps(slots, files, steps)).0 == normal(steps).0,
{
    lemma_swapped_all(slots, files, steps);
}

/// A normal form is no longer than the case, and where nothing is dropped it has the
/// same workers in the same order.
pub proof fn law_normal_form_keeps_workers(steps: Seq<ScheduledStep>)
    ensures
        normal(steps).0.len() <= steps.len(),
        normal(steps).0.len() == steps.len() ==> forall|i: int|
            0 <= i < steps.len() ==> (#[trigger] normal(steps).0[i]).worker == steps[i].worker,
    decreases steps.len(),
{
    if steps.len() > 0 {
        law_normal_form_keeps_workers(steps.drop_last());
        let (before, st) = normal(steps.drop_last());
        assert(forall|i: int| 0 <= i < steps.len() - 1 ==> steps.drop_last()[i] == steps[i]);
    }
}

/// A case that is its own normal form never works on a descriptor before its worker
/// opened one: the first step that uses a descriptor comes after an open.
pub proof fn law_enabled_case_opens_first(steps: Seq<ScheduledStep>, i: int)
    requires
        steps_exist(steps),
        normal(steps).0 == steps,
        0 <= i < steps.len(),
        steps[i].op.uses_fd(),
    ensures
        exists|j: int|
            0 <= j < i && (#[trigger] steps[j]).worker == steps[i].worker && (steps[j].op matches Op::Open {
                slot,
                ..
            } && Some(slot) == steps[i].op.slot_of() || (steps[j].op matches Op::Dup { dst_slot, .. }
                && Some(dst_slot) == steps[i].op.slot_of())),
{
    lemma_prefix_kept(steps, i + 1);
    let upto = steps.take(i + 1);
    assert(upto.drop_last() =~= steps.take(i));
    assert(upto.last() == steps[i]);
    let st = normal(steps.take(i)).1;
    law_normal_form_keeps_workers(steps.take(i));
    assert(!dropped(st, steps[i]));
    assert(step_exists(steps[i]));
    lemma_opened_by_some(steps, i, steps[i].worker, steps[i].op.slot_of()->0);
}

/// The prefixes of a case that is its own normal form are their own normal forms.
proof fn lemma_prefix_kept(steps: Seq<ScheduledStep>, n: int)
    requires
        normal(steps).0 == steps,
        0 <= n <= steps.len(),
    ensures
        normal(steps.take(n)).0 == steps.take(n),
    decreases steps.len() - n,
{
    if n == steps.len() {
        assert(steps.take(n) =~= steps);
    } else {
        lemma_prefix_kept(steps, n + 1);
        let upto = steps.take(n + 1);
        assert(upto.drop_last() =~= steps.take(n));
        law_normal_form_keeps_workers(steps.take(n));
        let (before, st) = normal(steps.take(n));
        assert(!dropped(st, upto.last()));
        assert(before =~= steps.take(n));
    }
}

proof fn lemma_opened_by_some(steps: Seq<ScheduledStep>, n: int, worker: usize, slot: usize)
    requires
        steps_exist(steps),
        0 <= n <= steps.len(),
        worker < WORKERS,
        slot < FD_SLOTS,
        normal(steps.take(n)).1.opened[worker as int][slot as int],
    ensures
        exists|j: int|
            0 <= j < n && (#[trigger] steps[j]).worker == worker && (steps[j].op matches Op::Open {
                slot: s,
                ..
            } && s == slot || (steps[j].op matches Op::Dup { dst_slot, .. } && dst_slot == slot)),
    decreases n,
{
    lemma_shaped(steps, n);
    if n > 0 {
        lemma_shaped(steps, n - 1);
        let upto = steps.take(n);
        assert(upto.drop_last() =~= steps.take(n - 1));
        let st = normal(steps.take(n - 1)).1;
        let last = steps[n - 1];
        assert(upto.last() == last);
        assert(step_exists(last));
        if st.opened[worker as int][slot as int] {
            lemma_opened_by_some(steps, n - 1, worker, slot);
        } else {
            assert(!dropped(st, last));
            assert(last.worker == worker);
        }
    }
}

proof fn lemma_shaped(steps: Seq<ScheduledStep>, n: int)
    requires
        steps_exist(steps),
        0 <= n <= steps.len(),
    ensures
        case_shaped(normal(steps.take(n)).1),
    decreases n,
{
    if n > 0 {
        lemma_shaped(steps, n - 1);
        assert(steps.take(n).drop_last() =~= steps.take(n - 1));
        assert(step_exists(steps[n - 1]));
    }
}

} // verus!
