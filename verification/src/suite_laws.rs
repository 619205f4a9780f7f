//! A suite is exhaustive: it holds every case of its length, once for all cases that differ
//! by names alone.

use vstd::arithmetic::power::*;
use vstd::prelude::*;

use crate::normal::{dropped, kept, normal, step_exists, steps_exist};
use crate::normal_laws::{law_normal_form_is_stable, law_normal_form_keeps_workers};
use crate::ops::{catalog, FileId, Op, FILES, WORKERS};
use crate::schedule::{
    chain_at, chain_mutates, expansion, expansions, lemma_catalog_expansion, lemma_pow_step,
    steps_of, worker_at, ScheduledStep,
};
use crate::suite::{
    chain_cases, chains_of, is_case, masked_cases, schedules, suite, suite_upto,
};

verus! {

/// Whether an operation is of a kind of the catalog, on a file that it is expanded over.
pub open spec fn of_catalog_kind(op: Op) -> bool {
    match op {
        Op::Open { file, mode, .. } => (mode is AppendCreate || mode is ReadWriteCreate) && (file
            is A || file is B || file is Fixture1),
        Op::Close { .. } => true,
        Op::Read { size, .. } => size is Bytes32,
        Op::Write { payload, .. } => payload is Bytes32,
        _ => false,
    }
}

/// Whether an operation is one that the catalog expands to.
pub open spec fn in_catalog(op: Op) -> bool {
    of_catalog_kind(op) && op.slots_exist()
}

/// The number of an operation of the catalog.
proof fn lemma_template_number(op: Op) -> (t: nat)
    requires
        in_catalog(op),
    ensures
        t < 18,
        expansions(catalog())[t as int] == op,
{
    lemma_catalog_expansion();
    reveal_with_fuel(expansions, 6);
    let c = catalog();
    assert(c.drop_last() =~= seq![c[0], c[1], c[2], c[3]]);
    assert(c.drop_last().drop_last() =~= seq![c[0], c[1], c[2]]);
    assert(c.drop_last().drop_last().drop_last() =~= seq![c[0], c[1]]);
    assert(c.drop_last().drop_last().drop_last().drop_last() =~= seq![c[0]]);
    assert(c.drop_last().drop_last().drop_last().drop_last().drop_last() =~= Seq::empty());
    assert(FILES@ =~= seq![FileId::A, FileId::B, FileId::Fixture1]);
    assert(expansions(c) =~= expansion(c[0]) + expansion(c[1]) + expansion(c[2]) + expansion(c[3])
        + expansion(c[4]));
    let e = expansions(c);
    let t: int = match op {
        Op::Close { slot } => slot as int,
        Op::Open { slot, file, mode } => {
            let f: int = match file {
                FileId::A => 0,
                FileId::B => 1,
                _ => 2,
            };
            (if mode is AppendCreate {
                2int
            } else {
                8
            }) + 3 * slot + f
        },
        Op::Read { slot, .. } => 14 + slot as int,
        Op::Write { slot, .. } => 16 + slot as int,
        _ => 0,
    };
    match op {
        Op::Close { slot } => {
            assert(e[t] == expansion(c[0])[t]);
        },
        Op::Open { slot, file, mode } => {
            if mode is AppendCreate {
                assert(e[t] == expansion(c[1])[t - 2]);
            } else {
                assert(e[t] == expansion(c[2])[t - 8]);
            }
        },
        Op::Read { slot, .. } => {
            assert(e[t] == expansion(c[3])[t - 14]);
        },
        Op::Write { slot, .. } => {
            assert(e[t] == expansion(c[4])[t - 16]);
        },
        _ => {},
    }
    t as nat
}

/// The number of a chain of operations of the catalog.
proof fn lemma_chain_number(chain: Seq<Op>) -> (i: nat)
    requires
        forall|k: int| 0 <= k < chain.len() ==> in_catalog(#[trigger] chain[k]),
    ensures
        i < pow(18, chain.len()),
        chain_at(expansions(catalog()), chain.len(), i) == chain,
    decreases chain.len(),
{
    lemma_catalog_expansion();
    if chain.len() == 0 {
        lemma_pow0(18);
        assert(chain =~= Seq::empty());
        0
    } else {
        let before = chain.drop_last();
        assert forall|k: int| 0 <= k < before.len() implies in_catalog(#[trigger] before[k]) by {
            assert(before[k] == chain[k]);
        }
        let j = lemma_chain_number(before);
        let t = lemma_template_number(chain.last());
        lemma_pow_step(18, before.len());
        let i = 18 * j + t;
        assert(i / 18 == j && i % 18 == t);
        assert(before.push(chain.last()) =~= chain);
        i
    }
}

/// Every chain of operations of the catalog has a number, under which it is generated.
pub proof fn law_every_chain_is_generated(chain: Seq<Op>)
    requires
        forall|k: int| 0 <= k < chain.len() ==> in_catalog(#[trigger] chain[k]),
    ensures
        exists|i: nat|
            i < chains_of(chain.len()) && #[trigger] chain_at(
                expansions(catalog()),
                chain.len(),
                i,
            ) == chain,
{
    let i = lemma_chain_number(chain);
    assert(chain_at(expansions(catalog()), chain.len(), i) == chain);
    lemma_pow_positive(18, chain.len());
}

/// The mask of a distribution over the workers.
proof fn lemma_mask(workers: Seq<nat>) -> (mask: nat)
    requires
        workers.len() > 0,
        workers[0] == 0,
        forall|k: int| 0 <= k < workers.len() ==> #[trigger] workers[k] < WORKERS,
    ensures
        mask < schedules(workers.len()),
        forall|k: nat|
            k < workers.len() ==> #[trigger] worker_at(WORKERS as nat, mask, k) == workers[k as int],
    decreases workers.len(),
{
    let w = WORKERS as int;
    lemma_pow_positive(w, (workers.len() - 1) as nat);
    if workers.len() == 1 {
        lemma_pow0(w);
        0
    } else {
        let rest = workers.remove(1);
        assert forall|k: int| 0 <= k < rest.len() implies #[trigger] rest[k] < WORKERS by {
            assert(rest[k] == if k < 1 {
                workers[k]
            } else {
                workers[k + 1]
            });
        }
        let high = lemma_mask(rest);
        let mask = high * 2 + workers[1];
        lemma_pow_step(w, (workers.len() - 2) as nat);
        lemma_pow_positive(w, (workers.len() - 2) as nat);
        assert(mask / 2 == high && mask % 2 == workers[1]);
        assert forall|k: nat| k < workers.len() implies #[trigger] worker_at(
            WORKERS as nat,
            mask,
            k,
        ) == workers[k as int] by {
            if k > 1 {
                assert(worker_at(WORKERS as nat, high, (k - 1) as nat) == rest[k - 1]);
            }
        }
        mask
    }
}

/// Every way to distribute a chain over the workers, the first step to the first one, is
/// tried.
pub proof fn law_every_schedule_is_tried(workers: Seq<nat>)
    requires
        workers.len() > 0,
        workers[0] == 0,
        forall|k: int| 0 <= k < workers.len() ==> #[trigger] workers[k] < WORKERS,
    ensures
        exists|mask: nat| #[trigger]
            tried(workers, mask),
{
    let mask = lemma_mask(workers);
    assert(tried(workers, mask));
}

/// Whether `mask` is a schedule that distributes steps in the given way.
pub open spec fn tried(workers: Seq<nat>, mask: nat) -> bool {
    &&& mask < schedules(workers.len())
    &&& forall|k: nat|
        k < workers.len() ==> #[trigger] worker_at(WORKERS as nat, mask, k) == workers[k as int]
}

proof fn lemma_masked_holds(chain: Seq<Op>, masks: nat, mask: nat) -> (i: int)
    requires
        mask < masks,
        is_case(chain, mask),
    ensures
        0 <= i < masked_cases(chain, masks).len(),
        masked_cases(chain, masks)[i] == (chain, mask),
    decreases masks,
{
    if mask == masks - 1 {
        masked_cases(chain, masks).len() - 1
    } else {
        lemma_masked_holds(chain, (masks - 1) as nat, mask)
    }
}

proof fn lemma_suite_holds(len: nat, k: nat, c: nat, mask: nat) -> (i: int)
    requires
        c < k,
        mask < schedules(len),
        chain_mutates(chain_at(expansions(catalog()), len, c)),
        is_case(chain_at(expansions(catalog()), len, c), mask),
    ensures
        0 <= i < suite_upto(len, k).len(),
        suite_upto(len, k)[i] == (chain_at(expansions(catalog()), len, c), mask),
    decreases k,
{
    let before = suite_upto(len, (k - 1) as nat);
    if c == k - 1 {
        let chain = chain_at(expansions(catalog()), len, c);
        let i = lemma_masked_holds(chain, schedules(len), mask);
        let all = suite_upto(len, k);
        assert(all == before + chain_cases(chain, schedules(len)));
        assert(all[before.len() + i] == chain_cases(chain, schedules(len))[i]);
        before.len() + i
    } else {
        lemma_suite_holds(len, (k - 1) as nat, c, mask)
    }
}

/// Whether steps are ones that a suite is made of: operations of the catalog, one of them a
/// mutation, on workers that exist, the first step on the first worker.
pub open spec fn of_suite(steps: Seq<ScheduledStep>) -> bool {
    &&& steps.len() > 0
    &&& steps[0].worker == 0
    &&& forall|k: int|
        0 <= k < steps.len() ==> (#[trigger] steps[k]).worker < WORKERS && in_catalog(steps[k].op)
    &&& exists|k: int| 0 <= k < steps.len() && (#[trigger] steps[k]).op.mutates()
}

/// Whether case `i` of a suite consists of the given steps.
pub open spec fn is_suite_case(steps: Seq<ScheduledStep>, i: int) -> bool {
    &&& 0 <= i < suite(steps.len()).len()
    &&& steps_of(WORKERS as nat, suite(steps.len())[i].0, suite(steps.len())[i].1) == steps
}

/// A suite holds all cases: steps that are their own normal form are one of them.
pub proof fn law_suite_is_exhaustive(steps: Seq<ScheduledStep>)
    requires
        of_suite(steps),
        normal(steps).0 == steps,
    ensures
        exists|i: int| #[trigger] is_suite_case(steps, i),
{
    let len = steps.len();
    let chain = Seq::new(len, |k: int| steps[k].op);
    let workers = Seq::new(len, |k: int| steps[k].worker as nat);
    assert forall|k: int| 0 <= k < len implies #[trigger] workers[k] < WORKERS by {
        assert(steps[k].worker < WORKERS);
    }
    assert forall|k: int| 0 <= k < len implies in_catalog(#[trigger] chain[k]) by {
        assert(in_catalog(steps[k].op));
    }
    let k = choose|k: int| 0 <= k < len && (#[trigger] steps[k]).op.mutates();
    assert(chain[k].mutates());
    let mask = lemma_mask(workers);
    let c = lemma_chain_number(chain);
    lemma_pow_positive(18, len);
    let all = steps_of(WORKERS as nat, chain, mask);
    assert(all =~= steps) by {
        assert forall|j: int| 0 <= j < len implies all[j] == steps[j] by {
            assert(worker_at(WORKERS as nat, mask, j as nat) == workers[j]);
        }
    }
    let i = lemma_suite_holds(len, chains_of(len), c, mask);
    assert(is_suite_case(steps, i));
}

/// What normal forms keep of their steps.
proof fn lemma_normal_ops(steps: Seq<ScheduledStep>)
    requires
        forall|k: int| 0 <= k < steps.len() ==> of_catalog_kind((#[trigger] steps[k]).op),
    ensures
        normal(steps).1.files.len() == 2,
        forall|f: int|
            0 <= f < 2 ==> (#[trigger] normal(steps).1.files[f] matches Some(file) ==> file is A
                || file is B),
        forall|k: int|
            0 <= k < normal(steps).0.len() ==> of_catalog_kind((#[trigger] normal(steps).0[k]).op),
        normal(steps).0.len() <= steps.len(),
        normal(steps).0.len() == steps.len() ==> forall|k: int|
            0 <= k < steps.len() ==> (#[trigger] normal(steps).0[k]).op.mutates()
                == steps[k].op.mutates(),
    decreases steps.len(),
{
    if steps.len() > 0 {
        let less = steps.drop_last();
        assert forall|k: int| 0 <= k < less.len() implies of_catalog_kind(
            (#[trigger] less[k]).op,
        ) by {
            assert(less[k] == steps[k]);
        }
        lemma_normal_ops(less);
        let (before, st) = normal(less);
        let last = steps.last();
        assert(of_catalog_kind(steps[steps.len() - 1].op));
        if !dropped(st, last) {
            let (step, next) = kept(st, last);
            assert(of_catalog_kind(step.op) && step.op.mutates() == last.op.mutates());
            assert forall|k: int| 0 <= k < normal(steps).0.len() implies of_catalog_kind(
                (#[trigger] normal(steps).0[k]).op,
            ) by {
                if k < before.len() {
                    assert(normal(steps).0[k] == before[k]);
                }
            }
            if normal(steps).0.len() == steps.len() {
                assert forall|k: int| 0 <= k < steps.len() implies (#[trigger] normal(
                    steps,
                ).0[k]).op.mutates() == steps[k].op.mutates() by {
                    if k < before.len() {
                        assert(normal(steps).0[k] == before[k]);
                        assert(less[k] == steps[k]);
                    }
                }
            }
        }
    }
}

/// Every case has its representative: the normal form of steps of which none is dropped is
/// a case of the suite.
pub proof fn law_every_case_has_its_representative(steps: Seq<ScheduledStep>)
    requires
        of_suite(steps),
        normal(steps).0.len() == steps.len(),
    ensures
        exists|i: int| #[trigger] is_suite_case(normal(steps).0, i),
{
    let form = normal(steps).0;
    assert(steps_exist(steps)) by {
        assert forall|k: int| 0 <= k < steps.len() implies step_exists(
            #[trigger] steps[k],
        ) by {
            assert(in_catalog(steps[k].op));
        }
    }
    law_normal_form_is_stable(steps);
    law_normal_form_keeps_workers(steps);
    assert forall|k: int| 0 <= k < steps.len() implies of_catalog_kind(
        (#[trigger] steps[k]).op,
    ) by {
        assert(in_catalog(steps[k].op));
    }
    lemma_normal_ops(steps);
    assert forall|k: int| 0 <= k < form.len() implies (#[trigger] form[k]).worker < WORKERS
        && in_catalog(form[k].op) by {
        assert(form[k].worker == steps[k].worker);
        assert(steps[k].worker < WORKERS);
        assert(step_exists(form[k]));
        assert(of_catalog_kind(form[k].op));
    }
    assert(form[0].worker == steps[0].worker);
    let k = choose|k: int| 0 <= k < steps.len() && (#[trigger] steps[k]).op.mutates();
    assert(form[k].op.mutates());
    law_suite_is_exhaustive(form);
}

} // verus!
