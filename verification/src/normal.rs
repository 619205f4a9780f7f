//! The normal form of a scheduled case. Steps on descriptors that nothing opened are
//! dropped, each worker's slots are renamed in the order of their first use, and the
//! persistent files in the order of theirs.

use vstd::prelude::*;

use crate::ops::{FileId, Op, FD_SLOTS, WORKERS};
use crate::schedule::ScheduledStep;

verus! {

/// What the steps of a case so far have opened and renamed.
#[verifier::ext_equal]
pub struct CaseView {
    /// By worker and slot, whether a step opened the slot.
    pub opened: Seq<Seq<bool>>,
    /// By worker and slot, the slot's new number.
    pub slots: Seq<Seq<Option<usize>>>,
    /// By canonical index, the file's new identity.
    pub files: Seq<Option<FileId>>,
}

/// How many places of `m` hold something.
pub open spec fn taken<T>(m: Seq<Option<T>>) -> nat
    decreases m.len(),
{
    if m.len() == 0 {
        0
    } else {
        taken(m.drop_last()) + if m.last() is Some {
            1nat
        } else {
            0nat
        }
    }
}

/// The number of `slot` under the renaming `m`, and the renaming that then holds.
pub open spec fn renamed_slot(m: Seq<Option<usize>>, slot: usize) -> (usize, Seq<Option<usize>>) {
    match m[slot as int] {
        Some(number) => (number, m),
        None => (taken(m) as usize, m.update(slot as int, Some(taken(m) as usize))),
    }
}

/// The identity of the file at `index` under the renaming `m`, and the renaming that
/// then holds.
pub open spec fn renamed_file(m: Seq<Option<FileId>>, index: usize) -> (
    FileId,
    Seq<Option<FileId>>,
) {
    match m[index as int] {
        Some(file) => (file, m),
        None => {
            let file = if taken(m) == 0 {
                FileId::A
            } else {
                FileId::B
            };
            (file, m.update(index as int, Some(file)))
        },
    }
}

/// Before the first step nothing is open and nothing renamed.
pub open spec fn fresh_case() -> CaseView {
    CaseView {
        opened: seq![seq![false, false], seq![false, false]],
        slots: seq![seq![None, None], seq![None, None]],
        files: seq![None, None],
    }
}

/// Whether the step works on a descriptor that no earlier step of its worker opened.
pub open spec fn dropped(st: CaseView, step: ScheduledStep) -> bool {
    step.op.uses_fd() && !st.opened[step.worker as int][step.op.slot_of()->0 as int]
}

/// The operation with its slots renamed, and the renaming that then holds.
pub open spec fn slots_renamed(m: Seq<Option<usize>>, op: Op) -> (Op, Seq<Option<usize>>) {
    match op {
        Op::Dup { src_slot, dst_slot } => {
            let (src, m1) = renamed_slot(m, src_slot);
            let (dst, m2) = renamed_slot(m1, dst_slot);
            (Op::Dup { src_slot: src, dst_slot: dst }, m2)
        },
        _ => match op.slot_of() {
            Some(slot) => {
                let (number, m1) = renamed_slot(m, slot);
                (op.on_slot(number), m1)
            },
            None => (op, m),
        },
    }
}

/// The operation with its file renamed, and the renaming that then holds.
pub open spec fn file_renamed(m: Seq<Option<FileId>>, op: Op) -> (Op, Seq<Option<FileId>>) {
    match op.file_of() {
        Some(file) => match file.canonical_index() {
            Some(index) => {
                let (new, m1) = renamed_file(m, index);
                (op.on_file(new), m1)
            },
            None => (op, m),
        },
        None => (op, m),
    }
}

/// The slots of a worker that are open once `op` has run.
pub open spec fn opened_by(opened: Seq<bool>, op: Op) -> Seq<bool> {
    match op {
        Op::Open { slot, .. } => opened.update(slot as int, true),
        Op::Dup { dst_slot, .. } => opened.update(dst_slot as int, true),
        _ => opened,
    }
}

/// A kept step in its new form, and the state after it.
pub open spec fn kept(st: CaseView, step: ScheduledStep) -> (ScheduledStep, CaseView) {
    let w = step.worker as int;
    if step.op.slot_of() is Some {
        let (op, slots) = slots_renamed(st.slots[w], step.op);
        let (op, files) = file_renamed(st.files, op);
        (
            ScheduledStep { worker: step.worker, op },
            CaseView {
                opened: st.opened.update(w, opened_by(st.opened[w], step.op)),
                slots: st.slots.update(w, slots),
                files,
            },
        )
    } else {
        let (op, files) = file_renamed(st.files, step.op);
        (
            ScheduledStep { worker: step.worker, op },
            CaseView { opened: st.opened, slots: st.slots, files },
        )
    }
}

/// The normal form of `steps`, and the state after them.
pub open spec fn normal(steps: Seq<ScheduledStep>) -> (Seq<ScheduledStep>, CaseView)
    decreases steps.len(),
{
    if steps.len() == 0 {
        (Seq::empty(), fresh_case())
    } else {
        let (before, st) = normal(steps.drop_last());
        if dropped(st, steps.last()) {
            (before, st)
        } else {
            let (step, next) = kept(st, steps.last());
            (before.push(step), next)
        }
    }
}

/// Whether the worker and the slots that the step names exist.
pub open spec fn step_exists(step: ScheduledStep) -> bool {
    step.op.slot_of() is Some ==> step.worker < WORKERS && step.op.slots_exist()
}

pub open spec fn steps_exist(steps: Seq<ScheduledStep>) -> bool {
    forall|i: int| 0 <= i < steps.len() ==> step_exists(#[trigger] steps[i])
}

/// Whether the state has a place for every worker, slot and persistent file.
pub open spec fn case_shaped(st: CaseView) -> bool {
    &&& st.opened.len() == WORKERS
    &&& st.slots.len() == WORKERS
    &&& st.files.len() == 2
    &&& forall|w: int| 0 <= w < WORKERS ==> (#[trigger] st.opened[w]).len() == FD_SLOTS
    &&& forall|w: int| 0 <= w < WORKERS ==> (#[trigger] st.slots[w]).len() == FD_SLOTS
}


pub proof fn lemma_taken_two<T>(m: Seq<Option<T>>)
    requires
        m.len() == 2,
    ensures
        taken(m) == (if m[0] is Some {
            1int
        } else {
            0
        }) + (if m[1] is Some {
            1int
        } else {
            0
        }),
{
    reveal_with_fuel(taken, 3);
    assert(m.drop_last().drop_last().len() == 0);
    assert(m.drop_last().last() == m[0]);
}

pub fn canonical_slot(worker_slots: &mut [Option<usize>; FD_SLOTS], slot: usize) -> (number: usize)
    requires
        slot < FD_SLOTS,
    ensures
        (number, final(worker_slots)@) == renamed_slot(old(worker_slots)@, slot),
{
    match worker_slots[slot] {
        Some(number) => number,
        None => {
            let mut count: usize = 0;
            let mut i: usize = 0;
            while i < FD_SLOTS
                invariant
                    i <= FD_SLOTS,
                    count <= i,
                    worker_slots@.len() == FD_SLOTS,
                    worker_slots@ == old(worker_slots)@,
                    count == taken(worker_slots@.take(i as int)),
                decreases FD_SLOTS - i,
            {
                assert(worker_slots@.take(i as int + 1).drop_last() =~= worker_slots@.take(
                    i as int,
                ));
                if worker_slots[i].is_some() {
                    count = count + 1;
                }
                i = i + 1;
            }
            assert(worker_slots@.take(i as int) =~= worker_slots@);
            worker_slots[slot] = Some(count);
            count
        },
    }
}

fn canonical_file(file_map: &mut [Option<FileId>; 2], index: usize) -> (file: FileId)
    requires
        index < 2,
    ensures
        (file, final(file_map)@) == renamed_file(old(file_map)@, index),
{
    match file_map[index] {
        Some(file) => file,
        None => {
            let count: usize = if file_map[0].is_some() || file_map[1].is_some() {
                1
            } else {
                0
            };
            proof {
                lemma_taken_two(file_map@);
            }
            let file = FileId::from_canonicalizable_index(count);
            file_map[index] = Some(file);
            file
        },
    }
}

/// The state of a case, in the form in which it is computed.
struct CaseState {
    opened: [[bool; FD_SLOTS]; WORKERS],
    slots: [[Option<usize>; FD_SLOTS]; WORKERS],
    files: [Option<FileId>; 2],
}

impl CaseState {
    spec fn view(&self) -> CaseView {
        CaseView {
            opened: Seq::new(self.opened@.len(), |w: int| self.opened@[w]@),
            slots: Seq::new(self.slots@.len(), |w: int| self.slots@[w]@),
            files: self.files@,
        }
    }

    fn fresh() -> (st: Self)
        ensures
            st@ == fresh_case(),
    {
        let st = CaseState {
            opened: [[false, false], [false, false]],
            slots: [[None, None], [None, None]],
            files: [None, None],
        };
        proof {
            assert(st@.opened[0] =~= seq![false, false]);
            assert(st@.opened[1] =~= seq![false, false]);
            assert(st@.slots[0] =~= seq![None::<usize>, None]);
            assert(st@.slots[1] =~= seq![None::<usize>, None]);
            assert(st@.opened =~= fresh_case().opened);
            assert(st@.slots =~= fresh_case().slots);
            assert(st@ =~= fresh_case());
        }
        st
    }

    fn rename_slot(&mut self, worker: usize, slot: usize) -> (number: usize)
        requires
            worker < WORKERS,
            slot < FD_SLOTS,
        ensures
            number == renamed_slot(old(self)@.slots[worker as int], slot).0,
            final(self)@ == (CaseView {
                slots: old(self)@.slots.update(
                    worker as int,
                    renamed_slot(old(self)@.slots[worker as int], slot).1,
                ),
                ..old(self)@
            }),
    {
        let mut row = self.slots[worker];
        let number: usize = canonical_slot(&mut row, slot);
        self.slots[worker] = row;
        assert(self@.slots =~= old(self)@.slots.update(
            worker as int,
            renamed_slot(old(self)@.slots[worker as int], slot).1,
        ));
        assert(self@.opened =~= old(self)@.opened);
        number
    }

    fn open_slot(&mut self, worker: usize, slot: usize)
        requires
            worker < WORKERS,
            slot < FD_SLOTS,
        ensures
            final(self)@ == (CaseView {
                opened: old(self)@.opened.update(
                    worker as int,
                    old(self)@.opened[worker as int].update(slot as int, true),
                ),
                ..old(self)@
            }),
    {
        let mut row = self.opened[worker];
        row[slot] = true;
        self.opened[worker] = row;
        assert(self@.opened =~= old(self)@.opened.update(
            worker as int,
            old(self)@.opened[worker as int].update(slot as int, true),
        ));
        assert(self@.slots =~= old(self)@.slots);
    }

    /// The new form of a step that is kept.
    fn keep(&mut self, step: ScheduledStep) -> (new: ScheduledStep)
        requires
            step_exists(step),
        ensures
            (new, final(self)@) == kept(old(self)@, step),
    {
        let op = match step.op {
            Op::Dup { src_slot, dst_slot } => {
                let src: usize = self.rename_slot(step.worker, src_slot);
                let dst: usize = self.rename_slot(step.worker, dst_slot);
                Op::Dup { src_slot: src, dst_slot: dst }
            },
            _ => match step.op.slot() {
                Some(slot) => {
                    let number: usize = self.rename_slot(step.worker, slot);
                    step.op.with_slot(number)
                },
                None => step.op,
            },
        };
        let ghost middle = self@;
        let op = match op.file() {
            Some(file) => match file.canonicalizable_index() {
                Some(index) => {
                    let new = canonical_file(&mut self.files, index);
                    op.with_file(new)
                },
                None => op,
            },
            None => op,
        };
        assert(self@.opened =~= middle.opened);
        assert(self@.slots =~= middle.slots);
        match step.op {
            Op::Open { slot, .. } => self.open_slot(step.worker, slot),
            Op::Dup { dst_slot, .. } => self.open_slot(step.worker, dst_slot),
            _ => {},
        }
        proof {
            let st = old(self)@;
            let goal = kept(st, step).1;
            assert(self@.files =~= goal.files);
            assert(self@.slots =~= goal.slots);
            assert(self@.opened =~= goal.opened);
        }
        ScheduledStep { worker: step.worker, op }
    }
}

/// The steps that stay, under their new names.
pub fn normalize_scheduled_case(steps: &[ScheduledStep]) -> (normalized: Vec<ScheduledStep>)
    requires
        steps_exist(steps@),
    ensures
        normalized@ == normal(steps@).0,
{
    let mut st = CaseState::fresh();
    let mut normalized: Vec<ScheduledStep> = Vec::new();
    let mut i: usize = 0;
    while i < steps.len()
        invariant
            steps_exist(steps@),
            i <= steps@.len(),
            (normalized@, st@) == normal(steps@.take(i as int)),
        decreases steps@.len() - i,
    {
        let step = steps[i];
        assert(step_exists(steps@[i as int]));
        assert(steps@.take(i as int + 1).drop_last() =~= steps@.take(i as int));
        let mut skip = false;
        if step.op.requires_fd() {
            if let Some(slot) = step.op.slot() {
                skip = !st.opened[step.worker][slot];
            }
        }
        assert(skip == dropped(st@, step));
        if !skip {
            let new = st.keep(step);
            normalized.push(new);
        }
        i = i + 1;
    }
    assert(steps@.take(i as int) =~= steps@);
    normalized
}

/// Whether a case is its own normal form.
pub fn scheduled_case_is_enabled(steps: &[ScheduledStep]) -> (r: bool)
    requires
        steps_exist(steps@),
    ensures
        r == (normal(steps@).0 == steps@),
{
    let normalized = normalize_scheduled_case(steps);
    if normalized.len() != steps.len() {
        return false;
    }
    let mut i: usize = 0;
    while i < steps.len()
        invariant
            i <= steps@.len(),
            normalized@.len() == steps@.len(),
            normalized@ == normal(steps@).0,
            forall|j: int| 0 <= j < i ==> normalized@[j] == steps@[j],
        decreases steps@.len() - i,
    {
        if normalized[i] != steps[i] {
            return false;
        }
        i = i + 1;
    }
    assert(normalized@ =~= steps@);
    true
}

} // verus!
