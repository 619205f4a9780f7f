//! How many cases a suite has.

use vstd::arithmetic::power::*;
use vstd::prelude::*;

use crate::normal::{
    dropped, fresh_case, kept, normal, renamed_file, renamed_slot, taken, CaseView,
};
use crate::ops::{catalog, FileId, Op, WORKERS};
use crate::schedule::{
    chain_at, chain_mutates, expansions, lemma_pow_step, steps_of, worker_at, ScheduledStep,
};
use crate::suite::{
    catalog_operations, chain_cases, chains_of, is_case, lemma_catalog_operations, masked_cases,
    schedules, suite, suite_upto,
};

verus! {

/// How many ways there are to go on with a worker that has opened `x` of its two slots in a
/// case that has named `f` of the two files that are renamed, weighted by what follows: on
/// an open slot, to close, to read, to write, or to open it again in one of two modes; or to
/// open the next slot; each with a file that is named already or is not renamed, or with the
/// next file.
pub open spec fn ways(x: nat, f: nat, same: nat, file: nat, slot: nat, both: nat) -> nat {
    x * (3 + 2 * (1 + f)) * same + (if f < 2 {
        2 * x * file
    } else {
        0
    }) + (if x < 2 {
        2 * (1 + f) * slot
    } else {
        0
    }) + (if x < 2 && f < 2 {
        2 * both
    } else {
        0
    })
}

/// How many ways there are to go on for `n` steps with a case in which the two workers have
/// opened `a` and `b` slots, and `f` files are named.
pub open spec fn continued(n: nat, a: nat, b: nat, f: nat) -> nat
    decreases n,
{
    if n == 0 {
        1
    } else {
        let m = (n - 1) as nat;
        ways(
            a,
            f,
            continued(m, a, b, f),
            continued(m, a, b, f + 1),
            continued(m, a + 1, b, f),
            continued(m, a + 1, b, f + 1),
        ) + ways(
            b,
            f,
            continued(m, a, b, f),
            continued(m, a, b, f + 1),
            continued(m, a, b + 1, f),
            continued(m, a, b + 1, f + 1),
        )
    }
}

/// The ways to go on, with the factors worked out.
spec fn linear_ways(x: nat, f: nat, same: nat, file: nat, slot: nat, both: nat) -> nat {
    if x == 0 && f == 0 {
        2 * slot + 2 * both
    } else if x == 0 && f == 1 {
        4 * slot + 2 * both
    } else if x == 0 && f == 2 {
        6 * slot
    } else if x == 1 && f == 0 {
        5 * same + 2 * file + 2 * slot + 2 * both
    } else if x == 1 && f == 1 {
        7 * same + 2 * file + 4 * slot + 2 * both
    } else if x == 1 && f == 2 {
        9 * same + 6 * slot
    } else if x == 2 && f == 0 {
        10 * same + 4 * file
    } else if x == 2 && f == 1 {
        14 * same + 4 * file
    } else {
        18 * same
    }
}

proof fn lemma_linear(x: nat, f: nat, same: nat, file: nat, slot: nat, both: nat)
    requires
        x <= 2,
        f <= 2,
    ensures
        ways(x, f, same, file, slot, both) == linear_ways(x, f, same, file, slot, both),
{
    lemma_factors(x, f, same);
    assert(2 * x * file == 2 * (x * file)) by (nonlinear_arith);
    assert(x * file == if x == 0 {
        0
    } else if x == 1 {
        file
    } else {
        2 * file
    }) by (nonlinear_arith)
        requires
            x <= 2,
    ;
    assert(2 * (1 + f) * slot == if f == 0 {
        2 * slot
    } else if f == 1 {
        4 * slot
    } else {
        6 * slot
    }) by (nonlinear_arith)
        requires
            f <= 2,
    ;
}

proof fn lemma_factors(x: nat, f: nat, same: nat)
    by (nonlinear_arith)
    requires
        x <= 2,
        f <= 2,
    ensures
        x == 0 ==> x * (3 + 2 * (1 + f)) * same == 0,
        x == 1 && f == 0 ==> x * (3 + 2 * (1 + f)) * same == 5 * same,
        x == 1 && f == 1 ==> x * (3 + 2 * (1 + f)) * same == 7 * same,
        x == 1 && f == 2 ==> x * (3 + 2 * (1 + f)) * same == 9 * same,
        x == 2 && f == 0 ==> x * (3 + 2 * (1 + f)) * same == 10 * same,
        x == 2 && f == 1 ==> x * (3 + 2 * (1 + f)) * same == 14 * same,
        x == 2 && f == 2 ==> x * (3 + 2 * (1 + f)) * same == 18 * same,
{
}

proof fn lemma_continued(n: nat, a: nat, b: nat, f: nat)
    requires
        a <= 2,
        b <= 2,
        f <= 2,
    ensures
        continued(n + 1, a, b, f) == linear_ways(
            a,
            f,
            continued(n, a, b, f),
            continued(n, a, b, f + 1),
            continued(n, a + 1, b, f),
            continued(n, a + 1, b, f + 1),
        ) + linear_ways(
            b,
            f,
            continued(n, a, b, f),
            continued(n, a, b, f + 1),
            continued(n, a, b + 1, f),
            continued(n, a, b + 1, f + 1),
        ),
{
    lemma_linear(
        a,
        f,
        continued(n, a, b, f),
        continued(n, a, b, f + 1),
        continued(n, a + 1, b, f),
        continued(n, a + 1, b, f + 1),
    );
    lemma_linear(
        b,
        f,
        continued(n, a, b, f),
        continued(n, a, b, f + 1),
        continued(n, a, b + 1, f),
        continued(n, a, b + 1, f + 1),
    );
}

/// The sum of `f` over the numbers below `n`.
spec fn sum(f: spec_fn(int) -> nat, n: nat) -> nat
    decreases n,
{
    if n == 0 {
        0
    } else {
        sum(f, (n - 1) as nat) + f(n - 1)
    }
}

proof fn lemma_sum_same(f: spec_fn(int) -> nat, g: spec_fn(int) -> nat, n: nat)
    requires
        forall|i: int| 0 <= i < n ==> #[trigger] f(i) == g(i),
    ensures
        sum(f, n) == sum(g, n),
    decreases n,
{
    if n > 0 {
        lemma_sum_same(f, g, (n - 1) as nat);
        assert(f(n - 1) == g(n - 1));
    }
}

proof fn lemma_sum_zero(f: spec_fn(int) -> nat, n: nat)
    requires
        forall|i: int| 0 <= i < n ==> #[trigger] f(i) == 0,
    ensures
        sum(f, n) == 0,
    decreases n,
{
    if n > 0 {
        lemma_sum_zero(f, (n - 1) as nat);
        assert(f(n - 1) == 0);
    }
}

proof fn lemma_sum_of_both(
    f: spec_fn(int) -> nat,
    g: spec_fn(int) -> nat,
    h: spec_fn(int) -> nat,
    n: nat,
)
    requires
        forall|i: int| 0 <= i < n ==> #[trigger] h(i) == f(i) + g(i),
    ensures
        sum(h, n) == sum(f, n) + sum(g, n),
    decreases n,
{
    if n > 0 {
        lemma_sum_of_both(f, g, h, (n - 1) as nat);
        assert(h(n - 1) == f(n - 1) + g(n - 1));
    }
}

proof fn lemma_sum_split(f: spec_fn(int) -> nat, g: spec_fn(int) -> nat, a: nat, b: nat)
    requires
        forall|i: int| 0 <= i < b ==> #[trigger] g(i) == f(a + i),
    ensures
        sum(f, a + b) == sum(f, a) + sum(g, b),
    decreases b,
{
    if b > 0 {
        lemma_sum_split(f, g, a, (b - 1) as nat);
        assert(g(b - 1) == f(a + (b - 1)));
        assert((a + b) as nat - 1 == a + (b - 1));
    }
}

/// A sum over blocks of eighteen, where `g` gives the sum of each block.
proof fn lemma_sum_blocks(f: spec_fn(int) -> nat, g: spec_fn(int) -> nat, blocks: nat)
    requires
        forall|k: int| 0 <= k < blocks ==> #[trigger] g(k) == sum(|j: int| f(18 * k + j), 18),
    ensures
        sum(f, 18 * blocks) == sum(g, blocks),
    decreases blocks,
{
    if blocks > 0 {
        let less = (blocks - 1) as nat;
        lemma_sum_blocks(f, g, less);
        let last = |j: int| f(18 * (less as int) + j);
        lemma_sum_split(f, last, 18 * less, 18);
        assert(18 * less + 18 == 18 * blocks);
        assert(g(less as int) == sum(last, 18));
    }
}

/// Sums of sums can be taken in either order.
proof fn lemma_sum_swap(h: spec_fn(int, int) -> nat, p: nat, q: nat)
    ensures
        sum(|i: int| sum(|j: int| h(i, j), q), p) == sum(|j: int| sum(|i: int| h(i, j), p), q),
    decreases p,
{
    let rows = |i: int| sum(|j: int| h(i, j), q);
    let columns = |j: int| sum(|i: int| h(i, j), p);
    if p == 0 {
        lemma_sum_zero(columns, q);
    } else {
        let less = (p - 1) as nat;
        lemma_sum_swap(h, less, q);
        let shorter = |j: int| sum(|i: int| h(i, j), less);
        let last = |j: int| h(less as int, j);
        assert forall|j: int| 0 <= j < q implies #[trigger] columns(j) == shorter(j) + last(j) by {
            let column = |i: int| h(i, j);
            assert(sum(column, p) == sum(column, less) + column(less as int));
        }
        lemma_sum_of_both(shorter, last, columns, q);
        assert(rows(less as int) == sum(last, q));
    }
}

/// The slots of a worker that has opened `x` of them.
spec fn slots_opened(x: nat) -> Seq<bool> {
    seq![x > 0, x > 1]
}

spec fn slots_named(x: nat) -> Seq<Option<usize>> {
    seq![
        if x > 0 {
            Some(0usize)
        } else {
            None
        },
        if x > 1 {
            Some(1usize)
        } else {
            None
        },
    ]
}

spec fn files_named(f: nat) -> Seq<Option<FileId>> {
    seq![
        if f > 0 {
            Some(FileId::A)
        } else {
            None
        },
        if f > 1 {
            Some(FileId::B)
        } else {
            None
        },
    ]
}

/// The state of a case that is in normal form, from the numbers of slots and files.
spec fn state_of(t: (nat, nat, nat)) -> CaseView {
    CaseView {
        opened: seq![slots_opened(t.0), slots_opened(t.1)],
        slots: seq![slots_named(t.0), slots_named(t.1)],
        files: files_named(t.2),
    }
}

/// The numbers of slots and files after `op` of a worker with `x` slots, where a case in
/// normal form can go on with it.
spec fn next(x: nat, f: nat, op: Op) -> Option<(nat, nat)> {
    match op {
        Op::Open { slot, file, .. } => {
            let index = file.canonical_index();
            if slot <= x && (index matches Some(i) ==> i <= f) {
                Some(
                    (
                        if slot == x {
                            x + 1
                        } else {
                            x
                        },
                        if index matches Some(i) && i == f {
                            f + 1
                        } else {
                            f
                        },
                    ),
                )
            } else {
                None
            }
        },
        _ => match op.slot_of() {
            Some(slot) => if slot < x {
                Some((x, f))
            } else {
                None
            },
            None => None,
        },
    }
}

/// The numbers after a step.
spec fn next_step(t: (nat, nat, nat), step: ScheduledStep) -> Option<(nat, nat, nat)> {
    if step.worker == 0 {
        match next(t.0, t.2, step.op) {
            Some((x, f)) => Some((x, t.1, f)),
            None => None,
        }
    } else {
        match next(t.1, t.2, step.op) {
            Some((x, f)) => Some((t.0, x, f)),
            None => None,
        }
    }
}

/// The numbers after the steps, where each step is one that a case in normal form can go on
/// with.
spec fn track(steps: Seq<ScheduledStep>) -> Option<(nat, nat, nat)>
    decreases steps.len(),
{
    if steps.len() == 0 {
        Some((0, 0, 0))
    } else {
        match track(steps.drop_last()) {
            Some(t) => next_step(t, steps.last()),
            None => None,
        }
    }
}

/// Whether an operation is one of the catalog.
spec fn listed(op: Op) -> bool {
    exists|j: int| 0 <= j < 18 && op == #[trigger] catalog_operations()[j]
}

spec fn in_bounds(t: (nat, nat, nat)) -> bool {
    t.0 <= 2 && t.1 <= 2 && t.2 <= 2
}

proof fn lemma_listed(op: Op)
    requires
        listed(op),
    ensures
        op.slots_exist(),
        op matches Op::Open { slot, file, mode } ==> mode !is ReadOnlyExisting && (file is A
            || file is B || file is Fixture1),
        op is Open || op is Close || op is Read || op is Write,
{
}

proof fn lemma_slot(x: nat, slot: usize)
    requires
        x <= 2,
        slot < 2,
    ensures
        slot < x ==> renamed_slot(slots_named(x), slot) == (slot, slots_named(x)),
        slot == x ==> renamed_slot(slots_named(x), slot) == (slot, slots_named(x + 1)),
        slot > x ==> renamed_slot(slots_named(x), slot).0 != slot,
        slot < x ==> slots_opened(x).update(slot as int, true) == slots_opened(x),
        slot == x ==> slots_opened(x).update(slot as int, true) == slots_opened(x + 1),
        slots_opened(x)[slot as int] == (slot < x),
{
    reveal_with_fuel(taken, 3);
    let m = slots_named(x);
    assert(m.drop_last().drop_last() =~= Seq::empty());
    assert(m.drop_last().last() == m[0]);
    assert(taken(m) == x);
    if slot == x {
        assert(renamed_slot(m, slot).1 =~= slots_named(x + 1));
        assert(slots_opened(x).update(slot as int, true) =~= slots_opened(x + 1));
    }
    if slot < x {
        assert(slots_opened(x).update(slot as int, true) =~= slots_opened(x));
    }
}

proof fn lemma_file(f: nat, file: FileId)
    requires
        f <= 2,
        file is A || file is B,
    ensures
        ({
            let i = file.canonical_index()->0;
            &&& i < f ==> renamed_file(files_named(f), i) == (file, files_named(f))
            &&& i == f ==> renamed_file(files_named(f), i) == (file, files_named(f + 1))
            &&& i > f ==> renamed_file(files_named(f), i).0 != file
        }),
{
    reveal_with_fuel(taken, 3);
    let m = files_named(f);
    assert(m.drop_last().drop_last() =~= Seq::empty());
    assert(m.drop_last().last() == m[0]);
    assert(taken(m) == f);
    let i = file.canonical_index()->0;
    if i == f {
        assert(renamed_file(m, i).1 =~= files_named(f + 1));
    }
}

/// A case in normal form goes on in normal form with just the steps that the numbers allow.
proof fn lemma_step(t: (nat, nat, nat), step: ScheduledStep)
    requires
        in_bounds(t),
        step.worker < 2,
        listed(step.op),
    ensures
        match next_step(t, step) {
            Some(u) => {
                &&& in_bounds(u)
                &&& !dropped(state_of(t), step)
                &&& kept(state_of(t), step) == (step, state_of(u))
            },
            None => dropped(state_of(t), step) || kept(state_of(t), step).0 != step,
        },
{
    lemma_listed(step.op);
    let st = state_of(t);
    let w = step.worker as int;
    let x = if w == 0 {
        t.0
    } else {
        t.1
    };
    let slot = step.op.slot_of()->0;
    lemma_slot(x, slot);
    if let Op::Open { file, .. } = step.op {
        if !(file is Fixture1) {
            lemma_file(t.2, file);
        }
    }
    assert(st.opened[w] == slots_opened(x));
    assert(st.slots[w] == slots_named(x));
    if let Some(u) = next_step(t, step) {
        let (_, after) = kept(st, step);
        assert(after.opened =~= state_of(u).opened);
        assert(after.slots =~= state_of(u).slots);
        assert(after.files =~= state_of(u).files);
    }
}

proof fn lemma_normal_is_no_longer(steps: Seq<ScheduledStep>)
    ensures
        normal(steps).0.len() <= steps.len(),
    decreases steps.len(),
{
    if steps.len() > 0 {
        lemma_normal_is_no_longer(steps.drop_last());
    }
}

/// Steps are in normal form where the numbers can be followed through them.
proof fn lemma_track(steps: Seq<ScheduledStep>)
    requires
        forall|i: int|
            0 <= i < steps.len() ==> (#[trigger] steps[i]).worker < 2 && listed(steps[i].op),
    ensures
        (normal(steps).0 == steps) == (track(steps) is Some),
        track(steps) matches Some(t) ==> in_bounds(t) && normal(steps).1 == state_of(t),
    decreases steps.len(),
{
    if steps.len() == 0 {
        assert(normal(steps).0 =~= steps);
        assert(fresh_case().opened =~~= state_of((0, 0, 0)).opened);
        assert(fresh_case().slots =~~= state_of((0, 0, 0)).slots);
        assert(fresh_case().files =~= state_of((0, 0, 0)).files);
    } else {
        let less = steps.drop_last();
        let last = steps.last();
        assert(last == steps[steps.len() - 1]);
        assert forall|i: int| 0 <= i < less.len() implies (#[trigger] less[i]).worker < 2
            && listed(less[i].op) by {
            assert(less[i] == steps[i]);
        }
        lemma_track(less);
        lemma_normal_is_no_longer(less);
        let (before, st) = normal(less);
        assert(less.push(last) =~= steps);
        if let Some(t) = track(less) {
            lemma_step(t, last);
            if normal(steps).0 == steps {
                assert(normal(steps).0.last() == last);
            }
        } else {
            if normal(steps).0 == steps {
                assert(normal(steps).0.drop_last() =~= before);
            }
        }
    }
}

/// How many ways there are to go on with the steps for `n` more.
spec fn weight(n: nat, steps: Seq<ScheduledStep>) -> nat {
    match track(steps) {
        Some(t) => continued(n, t.0, t.1, t.2),
        None => 0,
    }
}

/// What follows an operation after which the numbers are `u`.
spec fn following(
    x: nat,
    f: nat,
    u: Option<(nat, nat)>,
    same: nat,
    file: nat,
    slot: nat,
    both: nat,
) -> nat {
    match u {
        Some((y, g)) => if y == x && g == f {
            same
        } else if y == x {
            file
        } else if g == f {
            slot
        } else {
            both
        },
        None => 0,
    }
}

/// Over the operations of the catalog, what follows adds up to the ways to go on.
proof fn lemma_ways(
    c: spec_fn(int) -> nat,
    x: nat,
    f: nat,
    same: nat,
    file: nat,
    slot: nat,
    both: nat,
)
    requires
        x <= 2,
        f <= 2,
        forall|j: int|
            0 <= j < 18 ==> #[trigger] c(j) == following(
                x,
                f,
                next(x, f, catalog_operations()[j]),
                same,
                file,
                slot,
                both,
            ),
    ensures
        sum(c, 18) == ways(x, f, same, file, slot, both),
{
    reveal_with_fuel(sum, 19);
    assert(sum(c, 18) == c(0) + c(1) + c(2) + c(3) + c(4) + c(5) + c(6) + c(7) + c(8) + c(9) + c(10)
        + c(11) + c(12) + c(13) + c(14) + c(15) + c(16) + c(17));
    lemma_linear(x, f, same, file, slot, both);
}

spec fn worker_step(worker: usize, j: int) -> ScheduledStep {
    ScheduledStep { worker, op: catalog_operations()[j] }
}

/// Steps go on for one step more in the ways that their continuations do.
proof fn lemma_goes_on(n: nat, steps: Seq<ScheduledStep>)
    requires
        track(steps) matches Some(t) ==> in_bounds(t),
    ensures
        weight(n + 1, steps) == sum(
            |j: int|
                weight(n, steps.push(worker_step(0, j))) + weight(n, steps.push(worker_step(1, j))),
            18,
        ),
{
    let first = |j: int| weight(n, steps.push(worker_step(0, j)));
    let second = |j: int| weight(n, steps.push(worker_step(1, j)));
    let either = |j: int|
        weight(n, steps.push(worker_step(0, j))) + weight(n, steps.push(worker_step(1, j)));
    lemma_sum_of_both(first, second, either, 18);
    assert forall|s: ScheduledStep| #[trigger] steps.push(s).drop_last() == steps by {
        assert(steps.push(s).drop_last() =~= steps);
    }
    match track(steps) {
        Some(t) => {
            let (a, b, f) = t;
            assert forall|j: int| 0 <= j < 18 implies #[trigger] first(j) == following(
                a,
                f,
                next(a, f, catalog_operations()[j]),
                continued(n, a, b, f),
                continued(n, a, b, f + 1),
                continued(n, a + 1, b, f),
                continued(n, a + 1, b, f + 1),
            ) by {
                let more = steps.push(worker_step(0, j));
                assert(more.drop_last() == steps && more.last() == worker_step(0, j));
            }
            lemma_ways(
                first,
                a,
                f,
                continued(n, a, b, f),
                continued(n, a, b, f + 1),
                continued(n, a + 1, b, f),
                continued(n, a + 1, b, f + 1),
            );
            assert forall|j: int| 0 <= j < 18 implies #[trigger] second(j) == following(
                b,
                f,
                next(b, f, catalog_operations()[j]),
                continued(n, a, b, f),
                continued(n, a, b, f + 1),
                continued(n, a, b + 1, f),
                continued(n, a, b + 1, f + 1),
            ) by {
                let more = steps.push(worker_step(1, j));
                assert(more.drop_last() == steps && more.last() == worker_step(1, j));
            }
            lemma_ways(
                second,
                b,
                f,
                continued(n, a, b, f),
                continued(n, a, b, f + 1),
                continued(n, a, b + 1, f),
                continued(n, a, b + 1, f + 1),
            );
        },
        None => {
            assert forall|j: int| 0 <= j < 18 implies #[trigger] either(j) == 0 by {
                let one = steps.push(worker_step(0, j));
                let two = steps.push(worker_step(1, j));
                assert(one.drop_last() == steps && two.drop_last() == steps);
            }
            lemma_sum_zero(either, 18);
        },
    }
}

/// The steps of the chain `k` in the schedule `m`.
spec fn steps_at(len: nat, k: nat, m: nat) -> Seq<ScheduledStep> {
    steps_of(WORKERS as nat, chain_at(expansions(catalog()), len, k), m)
}

proof fn lemma_workers(len: nat, m: nat, d: nat, idx: nat)
    requires
        len >= 1,
        idx <= len,
        m < pow(2, (len - 1) as nat),
        d < 2,
    ensures
        worker_at(2, (m + d * pow(2, (len - 1) as nat)) as nat, idx) == if idx == len {
            d
        } else {
            worker_at(2, m, idx)
        },
    decreases len,
{
    lemma_pow0(2);
    if len == 1 {
        assert(d * 1 == d);
        assert(m == 0);
    } else {
        let half = pow(2, (len - 2) as nat);
        lemma_pow_step(2, (len - 2) as nat);
        lemma_pow_positive(2, (len - 2) as nat);
        let all = (m + d * pow(2, (len - 1) as nat)) as nat;
        assert(d * (2 * half) == 2 * (d * half)) by (nonlinear_arith);
        assert(d * half >= 0) by (nonlinear_arith)
            requires
                half > 0,
        ;
        assert(all % 2 == m % 2);
        assert(all / 2 == m / 2 + d * half);
        if idx >= 2 {
            lemma_workers((len - 1) as nat, m / 2, d, (idx - 1) as nat);
        }
    }
}

/// A chain of one operation more: the steps of the shorter one, and one step behind them.
proof fn lemma_one_step_more(len: nat, k: nat, j: nat, m: nat, d: nat)
    requires
        len >= 1,
        j < 18,
        d < 2,
        m < schedules(len),
    ensures
        steps_at(len + 1, 18 * k + j, (m + d * schedules(len)) as nat) == steps_at(len, k, m).push(
            worker_step(d as usize, j as int),
        ),
{
    lemma_catalog_operations();
    lemma_pow_positive(2, (len - 1) as nat);
    let t = expansions(catalog());
    let mask = (m + d * schedules(len)) as nat;
    assert((18 * k + j) / 18 == k && (18 * k + j) % 18 == j);
    let shorter = chain_at(t, len, k);
    let chain = chain_at(t, len + 1, 18 * k + j);
    assert(chain == shorter.push(t[j as int]));
    lemma_chain_len(len, k);
    assert forall|i: int| 0 <= i <= len implies #[trigger] worker_at(2, mask, i as nat) == if i
        == len {
        d
    } else {
        worker_at(2, m, i as nat)
    } by {
        lemma_workers(len, m, d, i as nat);
    }
    assert(steps_at(len + 1, 18 * k + j, mask) =~= steps_at(len, k, m).push(
        worker_step(d as usize, j as int),
    ));
}

proof fn lemma_chain_len(len: nat, k: nat)
    ensures
        chain_at(expansions(catalog()), len, k).len() == len,
    decreases len,
{
    if len > 0 {
        lemma_catalog_operations();
        lemma_chain_len((len - 1) as nat, k / 18);
    }
}

proof fn lemma_chain_listed(len: nat, k: nat, i: int)
    requires
        0 <= i < len,
    ensures
        listed(chain_at(expansions(catalog()), len, k)[i]),
    decreases len,
{
    lemma_catalog_operations();
    lemma_chain_len((len - 1) as nat, k / 18);
    if i < len - 1 {
        lemma_chain_listed((len - 1) as nat, k / 18, i);
    } else {
        let j = (k % 18) as int;
        assert(chain_at(expansions(catalog()), len, k)[i] == catalog_operations()[j]);
    }
}

proof fn lemma_steps_at(len: nat, k: nat, m: nat)
    ensures
        steps_at(len, k, m).len() == len,
        (normal(steps_at(len, k, m)).0 == steps_at(len, k, m)) == (track(steps_at(len, k, m)) is Some),
        track(steps_at(len, k, m)) matches Some(t) ==> in_bounds(t),
{
    let steps = steps_at(len, k, m);
    lemma_chain_len(len, k);
    assert forall|i: int| 0 <= i < steps.len() implies (#[trigger] steps[i]).worker < 2 && listed(
        steps[i].op,
    ) by {
        lemma_chain_listed(len, k, i);
        crate::schedule::law_workers_in_range(WORKERS as nat, m, i as nat);
    }
    lemma_track(steps);
}

/// By schedule, the ways to go on with a chain.
spec fn cell(len: nat, n: nat, k: int) -> spec_fn(int) -> nat {
    |m: int| weight(n, steps_at(len, k as nat, m as nat))
}

/// By chain, the ways to go on with it in all its schedules.
spec fn row(len: nat, n: nat) -> spec_fn(int) -> nat {
    |k: int| sum(cell(len, n, k), schedules(len))
}

/// The ways to go on for `n` steps with all chains of the length `len`.
spec fn whole(len: nat, n: nat) -> nat {
    sum(row(len, n), chains_of(len))
}

/// The ways to go on with the first chains are those of the chains that continue them.
proof fn lemma_block(len: nat, n: nat, k: int)
    requires
        len >= 1,
        k >= 0,
    ensures
        row(len, n + 1)(k) == sum(|j: int| row(len + 1, n)(18 * k + j), 18),
{
    let half = schedules(len);
    lemma_pow_step(2, (len - 1) as nat);
    lemma_pow_positive(2, (len - 1) as nat);
    assert(schedules(len + 1) == 2 * half);
    let h = |j: int, m: int|
        weight(n, steps_at(len, k as nat, m as nat).push(worker_step(0, j))) + weight(
            n,
            steps_at(len, k as nat, m as nat).push(worker_step(1, j)),
        );
    let longer = |j: int| row(len + 1, n)(18 * k + j);
    let rows = |j: int| sum(|m: int| h(j, m), half);
    assert forall|j: int| 0 <= j < 18 implies #[trigger] longer(j) == rows(j) by {
        let cells = cell(len + 1, n, 18 * k + j);
        let low = |m: int| weight(n, steps_at(len, k as nat, m as nat).push(worker_step(0, j)));
        let high = |m: int| weight(n, steps_at(len, k as nat, m as nat).push(worker_step(1, j)));
        assert forall|m: int| 0 <= m < half implies #[trigger] low(m) == cells(m) by {
            lemma_one_step_more(len, k as nat, j as nat, m as nat, 0);
            assert((18 * k + j) as nat == 18 * (k as nat) + (j as nat));
            assert((m as nat + 0 * half) as nat == m as nat);
        }
        assert forall|m: int| 0 <= m < half implies #[trigger] high(m) == cells(half + m) by {
            lemma_one_step_more(len, k as nat, j as nat, m as nat, 1);
            assert((18 * k + j) as nat == 18 * (k as nat) + (j as nat));
            assert((m as nat + 1 * half) as nat == (half + m) as nat);
        }
        lemma_sum_split(cells, high, half, half);
        lemma_sum_same(low, cells, half);
        let either = |m: int| h(j, m);
        lemma_sum_of_both(low, high, either, half);
        assert(half + half == 2 * half);
    }
    lemma_sum_same(longer, rows, 18);
    lemma_sum_swap(h, 18, half);
    let columns = |m: int| sum(|j: int| h(j, m), 18);
    let here = cell(len, n + 1, k);
    assert forall|m: int| 0 <= m < half implies #[trigger] here(m) == columns(m) by {
        let steps = steps_at(len, k as nat, m as nat);
        lemma_steps_at(len, k as nat, m as nat);
        lemma_goes_on(n, steps);
        let either = |j: int|
            weight(n, steps.push(worker_step(0, j))) + weight(n, steps.push(worker_step(1, j)));
        let column = |j: int| h(j, m);
        lemma_sum_same(either, column, 18);
    }
    lemma_sum_same(here, columns, half);
}

proof fn lemma_longer(len: nat, n: nat)
    requires
        len >= 1,
    ensures
        whole(len, n + 1) == whole(len + 1, n),
{
    let k = chains_of(len);
    lemma_pow_step(18, len);
    lemma_pow_positive(18, len);
    assert(chains_of(len + 1) == 18 * k);
    let f = row(len + 1, n);
    let g = row(len, n + 1);
    assert forall|i: int| 0 <= i < k implies #[trigger] g(i) == sum(
        |j: int| f(18 * i + j),
        18,
    ) by {
        lemma_block(len, n, i);
    }
    lemma_sum_blocks(f, g, k);
}

proof fn lemma_from_single(len: nat, n: nat)
    requires
        len >= 1,
    ensures
        whole(len, n) == whole(1, (n + len - 1) as nat),
    decreases len,
{
    if len > 1 {
        lemma_longer((len - 1) as nat, n);
        lemma_from_single((len - 1) as nat, n + 1);
    }
}

/// A case starts by opening a file, which mutates.
proof fn lemma_cases_mutate(len: nat, k: nat, m: nat)
    requires
        len >= 1,
        track(steps_at(len, k, m)) is Some,
    ensures
        chain_mutates(chain_at(expansions(catalog()), len, k)),
{
    let steps = steps_at(len, k, m);
    let chain = chain_at(expansions(catalog()), len, k);
    lemma_chain_len(len, k);
    lemma_first_opens(steps);
    lemma_chain_listed(len, k, 0);
    lemma_listed(chain[0]);
    assert(chain[0] == steps[0].op);
    assert(chain[0].mutates());
}

proof fn lemma_first_opens(steps: Seq<ScheduledStep>)
    requires
        steps.len() > 0,
        track(steps) is Some,
    ensures
        steps[0].op is Open,
    decreases steps.len(),
{
    if steps.len() == 1 {
        assert(steps.drop_last().len() == 0);
        assert(steps.last() == steps[0]);
    } else {
        lemma_first_opens(steps.drop_last());
        assert(steps.drop_last()[0] == steps[0]);
    }
}

proof fn lemma_masked_count(len: nat, k: nat, masks: nat)
    ensures
        masked_cases(chain_at(expansions(catalog()), len, k), masks).len() == sum(
            cell(len, 0, k as int),
            masks,
        ),
    decreases masks,
{
    if masks > 0 {
        lemma_masked_count(len, k, (masks - 1) as nat);
        lemma_steps_at(len, k, (masks - 1) as nat);
        assert(is_case(chain_at(expansions(catalog()), len, k), (masks - 1) as nat) == (track(
            steps_at(len, k, (masks - 1) as nat),
        ) is Some));
    }
}

proof fn lemma_chain_count(len: nat, k: nat)
    requires
        len >= 1,
    ensures
        chain_cases(chain_at(expansions(catalog()), len, k), schedules(len)).len() == row(len, 0)(
            k as int,
        ),
{
    let chain = chain_at(expansions(catalog()), len, k);
    lemma_masked_count(len, k, schedules(len));
    if !chain_mutates(chain) {
        let cells = cell(len, 0, k as int);
        assert forall|m: int| 0 <= m < schedules(len) implies #[trigger] cells(m) == 0 by {
            if track(steps_at(len, k, m as nat)) is Some {
                lemma_cases_mutate(len, k, m as nat);
            }
        }
        lemma_sum_zero(cells, schedules(len));
    }
}

proof fn lemma_suite_count(len: nat, k: nat)
    requires
        len >= 1,
    ensures
        suite_upto(len, k).len() == sum(row(len, 0), k),
    decreases k,
{
    if k > 0 {
        lemma_suite_count(len, (k - 1) as nat);
        lemma_chain_count(len, (k - 1) as nat);
    }
}

/// The ways to go on with chains of one operation.
proof fn lemma_single(n: nat)
    ensures
        whole(1, n) == 2 * continued(n, 1, 0, 0) + 2 * continued(n, 1, 0, 1),
{
    let c = row(1, n);
    lemma_pow1(18);
    lemma_pow0(2);
    let same = continued(n, 0, 0, 0);
    let file = continued(n, 0, 0, 1);
    let slot = continued(n, 1, 0, 0);
    let both = continued(n, 1, 0, 1);
    assert forall|j: int| 0 <= j < 18 implies #[trigger] c(j) == following(
        0,
        0,
        next(0, 0, catalog_operations()[j]),
        same,
        file,
        slot,
        both,
    ) by {
        reveal_with_fuel(sum, 2);
        lemma_catalog_operations();
        reveal_with_fuel(chain_at, 2);
        let steps = steps_at(1, j as nat, 0);
        assert(j % 18 == j);
        assert(steps =~= seq![worker_step(0, j)]);
        reveal_with_fuel(track, 2);
        assert(steps.drop_last() =~= Seq::empty());
        assert(steps.last() == worker_step(0, j));
        assert(c(j) == cell(1, n, j)(0));
    }
    lemma_ways(c, 0, 0, same, file, slot, both);
    lemma_linear(0, 0, same, file, slot, both);
}

/// A suite has as many cases as there are ways to go on with the four cases of a single
/// operation: a file that is not renamed, or the first of those that are, opened in one of
/// two modes.
pub proof fn law_cases_are_counted(len: nat)
    requires
        len >= 1,
    ensures
        suite(len).len() == 2 * continued((len - 1) as nat, 1, 0, 0) + 2 * continued(
            (len - 1) as nat,
            1,
            0,
            1,
        ),
{
    lemma_suite_count(len, chains_of(len));
    lemma_from_single(len, 0);
    lemma_single((len - 1) as nat);
}

proof fn lemma_one_more()
    ensures
        continued(1, 1, 0, 0) == 15,
        continued(1, 1, 0, 1) == 21,
        continued(1, 1, 0, 2) == 21,
        continued(1, 1, 1, 0) == 22,
        continued(1, 1, 1, 1) == 30,
        continued(1, 1, 1, 2) == 30,
        continued(1, 1, 2, 0) == 25,
        continued(1, 1, 2, 1) == 33,
        continued(1, 1, 2, 2) == 33,
        continued(1, 2, 0, 0) == 18,
        continued(1, 2, 0, 1) == 24,
        continued(1, 2, 0, 2) == 24,
        continued(1, 2, 1, 0) == 25,
        continued(1, 2, 1, 1) == 33,
        continued(1, 2, 1, 2) == 33,
        continued(1, 2, 2, 0) == 28,
        continued(1, 2, 2, 1) == 36,
        continued(1, 2, 2, 2) == 36,
{
    lemma_continued(0, 1, 0, 0);
    lemma_continued(0, 1, 0, 1);
    lemma_continued(0, 1, 0, 2);
    lemma_continued(0, 1, 1, 0);
    lemma_continued(0, 1, 1, 1);
    lemma_continued(0, 1, 1, 2);
    lemma_continued(0, 1, 2, 0);
    lemma_continued(0, 1, 2, 1);
    lemma_continued(0, 1, 2, 2);
    lemma_continued(0, 2, 0, 0);
    lemma_continued(0, 2, 0, 1);
    lemma_continued(0, 2, 0, 2);
    lemma_continued(0, 2, 1, 0);
    lemma_continued(0, 2, 1, 1);
    lemma_continued(0, 2, 1, 2);
    lemma_continued(0, 2, 2, 0);
    lemma_continued(0, 2, 2, 1);
    lemma_continued(0, 2, 2, 2);
}

proof fn lemma_two_more()
    ensures
        continued(2, 1, 0, 0) == 305,
        continued(2, 1, 0, 1) == 513,
        continued(2, 1, 0, 2) == 513,
        continued(2, 1, 1, 0) == 572,
        continued(2, 1, 1, 1) == 936,
        continued(2, 1, 1, 2) == 936,
        continued(2, 1, 2, 0) == 701,
        continued(2, 1, 2, 1) == 1107,
        continued(2, 1, 2, 2) == 1107,
        continued(2, 2, 0, 0) == 392,
        continued(2, 2, 0, 1) == 630,
        continued(2, 2, 0, 2) == 630,
        continued(2, 2, 1, 0) == 701,
        continued(2, 2, 1, 1) == 1107,
        continued(2, 2, 1, 2) == 1107,
        continued(1, 1, 0, 0) == 15,
        continued(1, 1, 0, 1) == 21,
{
    lemma_one_more();
    lemma_continued(1, 1, 0, 0);
    lemma_continued(1, 1, 0, 1);
    lemma_continued(1, 1, 0, 2);
    lemma_continued(1, 1, 1, 0);
    lemma_continued(1, 1, 1, 1);
    lemma_continued(1, 1, 1, 2);
    lemma_continued(1, 1, 2, 0);
    lemma_continued(1, 1, 2, 1);
    lemma_continued(1, 1, 2, 2);
    lemma_continued(1, 2, 0, 0);
    lemma_continued(1, 2, 0, 1);
    lemma_continued(1, 2, 0, 2);
    lemma_continued(1, 2, 1, 0);
    lemma_continued(1, 2, 1, 1);
    lemma_continued(1, 2, 1, 2);
}

proof fn lemma_three_more()
    ensures
        continued(3, 1, 0, 0) == 7611,
        continued(3, 1, 0, 1) == 14013,
        continued(3, 1, 0, 2) == 14013,
        continued(3, 1, 1, 0) == 16696,
        continued(3, 1, 1, 1) == 30132,
        continued(3, 1, 1, 2) == 30132,
        continued(3, 2, 0, 0) == 10056,
        continued(3, 2, 0, 1) == 17982,
        continued(3, 2, 0, 2) == 17982,
        continued(1, 1, 0, 0) == 15,
        continued(1, 1, 0, 1) == 21,
        continued(2, 1, 0, 0) == 305,
        continued(2, 1, 0, 1) == 513,
{
    lemma_two_more();
    lemma_continued(2, 1, 0, 0);
    lemma_continued(2, 1, 0, 1);
    lemma_continued(2, 1, 0, 2);
    lemma_continued(2, 1, 1, 0);
    lemma_continued(2, 1, 1, 1);
    lemma_continued(2, 1, 1, 2);
    lemma_continued(2, 2, 0, 0);
    lemma_continued(2, 2, 0, 1);
    lemma_continued(2, 2, 0, 2);
}

proof fn lemma_four_more()
    ensures
        continued(4, 1, 0, 0) == 215813,
        continued(4, 1, 0, 1) == 414801,
        continued(1, 1, 0, 0) == 15,
        continued(1, 1, 0, 1) == 21,
        continued(2, 1, 0, 0) == 305,
        continued(2, 1, 0, 1) == 513,
        continued(3, 1, 0, 0) == 7611,
        continued(3, 1, 0, 1) == 14013,
{
    lemma_three_more();
    lemma_continued(3, 1, 0, 0);
    lemma_continued(3, 1, 0, 1);
}

/// The numbers of cases that are kept are those of the suites.
pub proof fn law_known_counts()
    ensures
        suite(1).len() == 4,
        suite(2).len() == 72,
        suite(3).len() == 1_636,
        suite(4).len() == 43_248,
        suite(5).len() == 1_261_228,
{
    law_cases_are_counted(1);
    law_cases_are_counted(2);
    law_cases_are_counted(3);
    law_cases_are_counted(4);
    law_cases_are_counted(5);
    lemma_four_more();
}

} // verus!
