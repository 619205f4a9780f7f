//! The cases of a suite: every chain of a length, in every schedule that is its own normal
//! form, numbered from one.

use vstd::arithmetic::power::*;
use vstd::prelude::*;
use vstd::string::*;

use crate::count_laws::law_known_counts;
use crate::normal::{normal, scheduled_case_is_enabled, step_exists, steps_exist};
use crate::ops::{catalog, FileId, Op, OpenMode, ReadSize, WritePayload, FILES, WORKERS};
use crate::schedule::{
    chain_at, chain_is_enabled, chain_mutates, expansion, expansions, law_workers_in_range,
    lemma_catalog_expansion, lemma_pow_reaches, lemma_pow_step, scheduled_steps, steps_of,
    ChainGenerator, ScheduledStep, Scheduler,
};
use crate::selection::{selected_run_fixture_id, OracleCaseSelection, THEORY_TRIAL_1_FIXTURE_COUNT};
use crate::text::{dec, push_dec};

verus! {

/// The number of cases of a suite of chains of length `len`, for the lengths for which it
/// is kept.
pub fn known_scheduled_case_count(len: usize) -> (r: Option<usize>)
    ensures
        r == match len {
            1 => Some(4usize),
            2 => Some(72),
            3 => Some(1_636),
            4 => Some(43_248),
            5 => Some(1_261_228),
            _ => None,
        },
        r matches Some(count) ==> count == suite(len as nat).len(),
{
    proof {
        law_known_counts();
    }
    match len {
        1 => Some(4),
        2 => Some(72),
        3 => Some(1_636),
        4 => Some(43_248),
        5 => Some(1_261_228),
        _ => None,
    }
}

/// Whether the chain, distributed by `mask`, is a case: its own normal form.
pub open spec fn is_case(chain: Seq<Op>, mask: nat) -> bool {
    normal(steps_of(WORKERS as nat, chain, mask)).0 == steps_of(WORKERS as nat, chain, mask)
}

/// The cases of a chain among its first `masks` schedules.
pub open spec fn masked_cases(chain: Seq<Op>, masks: nat) -> Seq<(Seq<Op>, nat)>
    decreases masks,
{
    if masks == 0 {
        Seq::empty()
    } else {
        let before = masked_cases(chain, (masks - 1) as nat);
        if is_case(chain, (masks - 1) as nat) {
            before.push((chain, (masks - 1) as nat))
        } else {
            before
        }
    }
}

/// The same, but none where nothing in the chain mutates.
pub open spec fn chain_cases(chain: Seq<Op>, masks: nat) -> Seq<(Seq<Op>, nat)> {
    if chain_mutates(chain) {
        masked_cases(chain, masks)
    } else {
        Seq::empty()
    }
}

/// The number of schedules of a chain.
pub open spec fn schedules(len: nat) -> nat {
    if len == 0 {
        1
    } else {
        pow(WORKERS as int, (len - 1) as nat) as nat
    }
}

/// The cases of the first `k` chains of length `len`.
pub open spec fn suite_upto(len: nat, k: nat) -> Seq<(Seq<Op>, nat)>
    decreases k,
{
    if k == 0 {
        Seq::empty()
    } else {
        suite_upto(len, (k - 1) as nat) + chain_cases(
            chain_at(expansions(catalog()), len, (k - 1) as nat),
            schedules(len),
        )
    }
}

/// The number of chains of length `len`.
pub open spec fn chains_of(len: nat) -> nat {
    pow(18, len) as nat
}

/// All cases of chains of length `len`.
pub open spec fn suite(len: nat) -> Seq<(Seq<Op>, nat)> {
    suite_upto(len, chains_of(len))
}

proof fn lemma_chain_steps(len: nat, i: nat, mask: nat)
    ensures
        chain_at(expansions(catalog()), len, i).len() == len,
        steps_exist(steps_of(WORKERS as nat, chain_at(expansions(catalog()), len, i), mask)),
{
    let chain = chain_at(expansions(catalog()), len, i);
    lemma_chain_ops(len, i);
    let steps = steps_of(WORKERS as nat, chain, mask);
    assert forall|j: int| 0 <= j < steps.len() implies step_exists(#[trigger] steps[j]) by {
        assert(chain[j].slots_exist());
        law_workers_in_range(WORKERS as nat, mask, j as nat);
    }
}

proof fn lemma_chain_ops(len: nat, i: nat)
    ensures
        chain_at(expansions(catalog()), len, i).len() == len,
        forall|j: int| 0 <= j < len ==> (#[trigger] chain_at(expansions(catalog()), len, i)[j]).slots_exist(),
    decreases len,
{
    lemma_catalog_expansion();
    if len > 0 {
        lemma_chain_ops((len - 1) as nat, i / 18);
        let t = expansions(catalog());
        assert(0 <= i % 18 < 18);
        assert(t[(i % 18) as int].slots_exist());
        let less = chain_at(t, (len - 1) as nat, i / 18);
        let all = chain_at(t, len, i);
        assert(all == less.push(t[(i % 18) as int]));
        assert forall|j: int| 0 <= j < len implies (#[trigger] all[j]).slots_exist() by {
            if j < len - 1 {
                assert(all[j] == less[j]);
            }
        }
    }
}

proof fn lemma_schedules_fit(len: nat)
    requires
        chains_of(len) <= usize::MAX,
    ensures
        schedules(len) <= usize::MAX,
        len <= u32::MAX,
        pow(18, len) >= 1,
    decreases len,
{
    lemma_pow_positive(18, len);
    lemma_small_power(len);
    if len > 0 {
        lemma_pow_reaches(18, (len - 1) as nat, len);
        lemma_power_of_two(len, (len - 1) as nat);
    }
}

proof fn lemma_power_of_two(len: nat, k: nat)
    ensures
        pow(2, k) <= pow(18, k),
        pow(2, k) >= 0,
    decreases k,
{
    lemma_pow0(2);
    lemma_pow0(18);
    lemma_pow_positive(2, k);
    if k > 0 {
        lemma_power_of_two(len, (k - 1) as nat);
        lemma_pow_step(2, (k - 1) as nat);
        lemma_pow_step(18, (k - 1) as nat);
    }
}

/// A chain count that a machine can hold belongs to a short chain.
proof fn lemma_small_power(len: nat)
    requires
        pow(18, len) <= usize::MAX,
    ensures
        len <= u32::MAX,
{
    if len > u32::MAX {
        lemma_pow_reaches(18, 16, len);
        reveal(pow);
        reveal_with_fuel(pow, 17);
        assert(pow(18, 16) > 0xffff_ffff_ffff_ffff);
    }
}

/// How many cases the chain has among its first `masks` schedules.
fn count_chain(chain: &[Op], masks: usize) -> (n: usize)
    requires
        forall|mask: nat| steps_exist(#[trigger] steps_of(WORKERS as nat, chain@, mask)),
    ensures
        n == chain_cases(chain@, masks as nat).len(),
        n <= masks,
{
    if !chain_is_enabled(chain) {
        return 0;
    }
    let scheduler = Scheduler::new(WORKERS);
    let mut n: usize = 0;
    let mut mask: usize = 0;
    while mask < masks
        invariant
            mask <= masks,
            n <= mask,
            scheduler.worker_count == WORKERS,
            forall|m: nat| steps_exist(#[trigger] steps_of(WORKERS as nat, chain@, m)),
            n == masked_cases(chain@, mask as nat).len(),
        decreases masks - mask,
    {
        let steps = scheduled_steps(chain, &scheduler, mask);
        if scheduled_case_is_enabled(steps.as_slice()) {
            n = n + 1;
        }
        mask = mask + 1;
    }
    n
}

/// Counts the cases of a suite, chain by chain.
pub struct SuiteCounter {
    generator: ChainGenerator,
    len: usize,
    chains: usize,
    masks: usize,
    counted: usize,
    total: usize,
}

impl SuiteCounter {
    pub closed spec fn wf(&self) -> bool {
        &&& self.generator.templates@ == expansions(catalog())
        &&& self.generator.templates@.len() == 18
        &&& self.chains == chains_of(self.len as nat)
        &&& self.masks == schedules(self.len as nat)
        &&& self.counted <= self.chains
        &&& self.total == suite_upto(self.len as nat, self.counted as nat).len()
    }

    /// The length of the chains.
    pub closed spec fn chain_len(&self) -> usize {
        self.len
    }

    /// How many chains are counted.
    pub closed spec fn done(&self) -> usize {
        self.counted
    }

    /// How many cases they have.
    pub closed spec fn found(&self) -> usize {
        self.total
    }

    /// A counter that has counted nothing. Chains of which a machine cannot count the
    /// number are refused.
    pub fn new(len: usize) -> (r: Result<Self, String>)
        ensures
            r is Ok <==> chains_of(len as nat) <= usize::MAX,
            r matches Ok(c) ==> c.wf() && c.chain_len() == len && c.done() == 0,
            r matches Err(e) ==> e@ == "oracle chain count overflows usize for length "@ + dec(
                len as nat,
            ),
    {
        let generator = ChainGenerator::new();
        if len > 64 {
            proof {
                lemma_pow_reaches(18, 16, len as nat);
                reveal_with_fuel(pow, 17);
                assert(pow(18, 16) > 0xffff_ffff_ffff_ffff);
            }
            let mut e = "oracle chain count overflows usize for length ".to_string();
            push_dec(&mut e, len as u64);
            return Err(e);
        }
        proof {
            lemma_pow_reaches(18, 0, len as nat);
            lemma_pow_positive(18, len as nat);
        }
        let chains: usize = match generator.chain_count(len) {
            Ok(chains) => chains,
            Err(e) => {
                return Err(e);
            },
        };
        proof {
            lemma_schedules_fit(len as nat);
        }
        let scheduler = Scheduler::new(WORKERS);
        let masks: usize = scheduler.schedule_count(len);
        Ok(SuiteCounter { generator, len, chains, masks, counted: 0, total: 0 })
    }

    /// The number of chains.
    pub fn chain_count(&self) -> (n: usize)
        requires
            self.wf(),
        ensures
            n == chains_of(self.chain_len() as nat),
    {
        self.chains
    }

    /// How many chains are counted so far.
    pub fn counted_chains(&self) -> (n: usize)
        ensures
            n == self.done(),
    {
        self.counted
    }

    /// How many cases they have.
    pub fn cases(&self) -> (n: usize)
        requires
            self.wf(),
        ensures
            n == self.found(),
            n == suite_upto(self.chain_len() as nat, self.done() as nat).len(),
    {
        self.total
    }

    /// Counts one more chain; says no where none is left.
    pub fn step(&mut self) -> (r: Result<bool, String>)
        requires
            old(self).wf(),
        ensures
            final(self).wf(),
            final(self).chain_len() == old(self).chain_len(),
            match r {
                Ok(true) => {
                    &&& old(self).done() < chains_of(old(self).chain_len() as nat)
                    &&& final(self).done() == old(self).done() + 1
                },
                Ok(false) => *final(self) == *old(self) && old(self).done() == chains_of(
                    old(self).chain_len() as nat,
                ),
                Err(e) => {
                    &&& *final(self) == *old(self)
                    &&& old(self).done() < chains_of(old(self).chain_len() as nat)
                    &&& suite_upto(
                        old(self).chain_len() as nat,
                        (old(self).done() + 1) as nat,
                    ).len() > usize::MAX
                    &&& e@ == "oracle case count overflows usize"@
                },
            },
    {
        if self.counted == self.chains {
            return Ok(false);
        }
        let chain = self.generator.chain(self.len, self.counted);
        proof {
            assert forall|mask: nat| steps_exist(
                #[trigger] steps_of(WORKERS as nat, chain@, mask),
            ) by {
                lemma_chain_steps(self.len as nat, self.counted as nat, mask);
            }
        }
        let n: usize = count_chain(chain.as_slice(), self.masks);
        match self.total.checked_add(n) {
            Some(total) => {
                self.total = total;
                self.counted = self.counted + 1;
                Ok(true)
            },
            None => Err("oracle case count overflows usize".to_string()),
        }
    }
}

/// A case to run.
pub struct PlannedCase {
    pub case_id: usize,
    pub mask: usize,
    pub fixture_id: usize,
    pub chain: Vec<Op>,
    pub steps: Vec<ScheduledStep>,
}

/// Walks over the cases of a suite and gives out the selected ones.
pub struct SuiteRun {
    generator: ChainGenerator,
    len: usize,
    chains: usize,
    masks: usize,
    total: usize,
    selection: OracleCaseSelection,
    chain_idx: usize,
    chain: Vec<Op>,
    enabled: bool,
    mask: usize,
    case_id: usize,
    selected_index: usize,
}

/// Whether `q` is the place of the first selected case from `p` on.
pub open spec fn first_selected(cases: Set<usize>, p: int, q: int, total: int) -> bool {
    &&& p <= q < total
    &&& cases.contains((q + 1) as usize)
    &&& forall|k: int| p <= k < q ==> !cases.contains(#[trigger] ((k + 1) as usize))
}

impl SuiteRun {
    pub closed spec fn wf(&self) -> bool {
        &&& self.generator.templates@ == expansions(catalog())
        &&& self.generator.templates@.len() == 18
        &&& self.chains == chains_of(self.len as nat)
        &&& self.masks == schedules(self.len as nat)
        &&& self.total == suite(self.len as nat).len()
        &&& self.chain_idx <= self.chains
        &&& self.mask <= self.masks
        &&& self.chain_idx == self.chains ==> self.mask == 0
        &&& self.chain_idx < self.chains ==> {
            &&& self.chain@ == chain_at(
                expansions(catalog()),
                self.len as nat,
                self.chain_idx as nat,
            )
            &&& self.enabled == chain_mutates(self.chain@)
        }
        &&& self.case_id == suite_upto(self.len as nat, self.chain_idx as nat).len()
            + self.begun().len()
        &&& self.selected_index <= self.case_id
    }

    /// The cases of the current chain that are passed.
    spec fn begun(&self) -> Seq<(Seq<Op>, nat)> {
        if self.mask == 0 {
            Seq::empty()
        } else {
            chain_cases(self.chain@, self.mask as nat)
        }
    }

    pub closed spec fn chain_len(&self) -> usize {
        self.len
    }

    /// How many cases are passed, selected or not.
    pub closed spec fn passed(&self) -> usize {
        self.case_id
    }

    /// How many selected cases were given out.
    pub closed spec fn given(&self) -> usize {
        self.selected_index
    }

    pub closed spec fn selected(&self) -> OracleCaseSelection {
        self.selection
    }

    /// A walk over the suite that the counter has counted to the end.
    pub fn new(counter: SuiteCounter, selection: OracleCaseSelection) -> (run: Self)
        requires
            counter.wf(),
            counter.done() == chains_of(counter.chain_len() as nat),
        ensures
            run.wf(),
            run.chain_len() == counter.chain_len(),
            run.selected() == selection,
            run.passed() == 0,
            run.given() == 0,
    {
        let chain = counter.generator.chain(counter.len, 0);
        let enabled = chain_is_enabled(chain.as_slice());
        proof {
            lemma_pow_positive(18, counter.len as nat);
        }
        SuiteRun {
            generator: counter.generator,
            len: counter.len,
            chains: counter.chains,
            masks: counter.masks,
            total: counter.total,
            selection,
            chain_idx: 0,
            chain,
            enabled,
            mask: 0,
            case_id: 0,
            selected_index: 0,
        }
    }

    /// The number of all cases.
    pub fn total_cases(&self) -> (n: usize)
        requires
            self.wf(),
        ensures
            n == suite(self.chain_len() as nat).len(),
    {
        self.total
    }

    /// How many selected cases were given out so far.
    pub fn selected_index(&self) -> (n: usize)
        ensures
            n == self.given(),
    {
        self.selected_index
    }

    /// Whether asking `self` for the next case may give `r` and leave `after`: the first
    /// selected case behind those that are passed, with its steps and its fixtures; or none,
    /// where as many were given out as are selected or none is left.
    pub open spec fn gave(self, r: Option<PlannedCase>, after: SuiteRun) -> bool {
        let all = suite(self.chain_len() as nat);
        let cases = self.selected().cases();
        &&& after.chain_len() == self.chain_len()
        &&& after.selected() == self.selected()
        &&& match r {
            Some(case) => {
                &&& self.given() < self.selected().size()
                &&& 1 <= case.case_id
                &&& first_selected(
                    cases,
                    self.passed() as int,
                    case.case_id - 1,
                    all.len() as int,
                )
                &&& all[case.case_id - 1] == (case.chain@, case.mask as nat)
                &&& case.steps@ == steps_of(WORKERS as nat, case.chain@, case.mask as nat)
                &&& steps_exist(case.steps@)
                &&& case.fixture_id == if all.len() <= THEORY_TRIAL_1_FIXTURE_COUNT {
                    case.case_id as int
                } else {
                    self.given() + 1
                }
                &&& after.passed() == case.case_id
                &&& after.given() == self.given() + 1
            },
            None => {
                &&& after.given() == self.given()
                &&& self.given() >= self.selected().size() || forall|k: int|
                    self.passed() <= k < all.len() ==> !cases.contains(
                        #[trigger] ((k + 1) as usize),
                    )
            },
        }
    }

    /// The next selected case, until as many were given out as are selected or none is
    /// left.
    pub fn next_case(&mut self) -> (r: Option<PlannedCase>)
        requires
            old(self).wf(),
        ensures
            final(self).wf(),
            old(self).gave(r, *final(self)),
    {
        if self.selection.is_complete(self.selected_index) {
            return None;
        }
        let scheduler = Scheduler::new(WORKERS);
        let ghost all = suite(self.len as nat);
        let ghost cases = self.selection.cases();
        let ghost start = self.case_id as int;
        while self.chain_idx < self.chains
            invariant
                self.wf(),
                self.len == old(self).len,
                self.selection == old(self).selection,
                self.selected_index == old(self).selected_index,
                self.selected_index < self.selection.size(),
                scheduler.worker_count == WORKERS,
                all == suite(self.len as nat),
                cases == self.selection.cases(),
                start == old(self).case_id,
                start <= self.case_id,
                forall|k: int|
                    start <= k < self.case_id ==> !cases.contains(#[trigger] ((k + 1) as usize)),
            decreases self.chains - self.chain_idx, self.masks - self.mask,
        {
            proof {
                lemma_part_of_suite(self.len as nat, self.chain_idx as nat, self.mask as nat);
            }
            if self.enabled && self.mask < self.masks {
                let steps = scheduled_steps(self.chain.as_slice(), &scheduler, self.mask);
                proof {
                    lemma_chain_steps(self.len as nat, self.chain_idx as nat, self.mask as nat);
                    lemma_part_of_suite(
                        self.len as nat,
                        self.chain_idx as nat,
                        (self.mask + 1) as nat,
                    );
                }
                let enabled = scheduled_case_is_enabled(steps.as_slice());
                let mask: usize = self.mask;
                self.mask = self.mask + 1;
                if enabled {
                    self.case_id = self.case_id + 1;
                    if self.selection.contains(self.case_id) {
                        self.selected_index = self.selected_index + 1;
                        let fixture_id: usize = selected_run_fixture_id(
                            self.total,
                            self.case_id,
                            self.selected_index,
                        );
                        let chain = self.chain.clone();
                        proof {
                            assert(chain@ =~= self.chain@);
                            let at = self.case_id as int;
                            let before = suite_upto(self.len as nat, self.chain_idx as nat);
                            let part = chain_cases(self.chain@, self.mask as nat);
                            assert(part.last() == (self.chain@, mask as nat));
                            assert(all.take(at)[at - 1] == (before + part)[at - 1]);
                            assert(first_selected(cases, start, at - 1, all.len() as int));
                        }
                        return Some(
                            PlannedCase { case_id: self.case_id, mask, fixture_id, chain, steps },
                        );
                    }
                }
            } else {
                proof {
                    lemma_part_of_suite(
                        self.len as nat,
                        self.chain_idx as nat,
                        self.masks as nat,
                    );
                }
                self.chain_idx = self.chain_idx + 1;
                self.mask = 0;
                if self.chain_idx < self.chains {
                    self.chain = self.generator.chain(self.len, self.chain_idx);
                    self.enabled = chain_is_enabled(self.chain.as_slice());
                }
            }
        }
        None
    }
}

proof fn lemma_suite_grows(len: nat, low: nat, high: nat)
    requires
        low <= high,
    ensures
        suite_upto(len, low).len() <= suite_upto(len, high).len(),
        suite_upto(len, high).take(suite_upto(len, low).len() as int) == suite_upto(len, low),
    decreases high,
{
    let first = suite_upto(len, low);
    if low < high {
        lemma_suite_grows(len, low, (high - 1) as nat);
        let before = suite_upto(len, (high - 1) as nat);
        assert(suite_upto(len, high).take(first.len() as int) =~= before.take(first.len() as int));
    } else {
        assert(first.take(first.len() as int) =~= first);
    }
}

proof fn lemma_masked_grow(chain: Seq<Op>, low: nat, high: nat)
    requires
        low <= high,
    ensures
        masked_cases(chain, low).len() <= masked_cases(chain, high).len(),
        masked_cases(chain, high).take(masked_cases(chain, low).len() as int) == masked_cases(
            chain,
            low,
        ),
    decreases high,
{
    let first = masked_cases(chain, low);
    if low < high {
        lemma_masked_grow(chain, low, (high - 1) as nat);
        let before = masked_cases(chain, (high - 1) as nat);
        assert(masked_cases(chain, high).take(first.len() as int) =~= before.take(
            first.len() as int,
        ));
    } else {
        assert(first.take(first.len() as int) =~= first);
    }
}

/// The cases of whole chains, and of a part of the next one, are the first of the suite.
proof fn lemma_part_of_suite(len: nat, chain_idx: nat, mask: nat)
    requires
        chain_idx < chains_of(len),
        mask <= schedules(len),
    ensures
        ({
            let before = suite_upto(len, chain_idx);
            let part = chain_cases(chain_at(expansions(catalog()), len, chain_idx), mask);
            &&& before.len() + part.len() <= suite(len).len()
            &&& suite(len).take((before.len() + part.len()) as int) == before + part
        }),
{
    let chain = chain_at(expansions(catalog()), len, chain_idx);
    let before = suite_upto(len, chain_idx);
    let part = chain_cases(chain, mask);
    let whole = chain_cases(chain, schedules(len));
    let next = suite_upto(len, (chain_idx + 1) as nat);
    assert(next == before + whole);
    lemma_suite_grows(len, (chain_idx + 1) as nat, chains_of(len));
    lemma_masked_grow(chain, mask, schedules(len));
    let all = suite(len);
    assert(next.take((before.len() + part.len()) as int) =~= before + part) by {
        assert(whole.take(part.len() as int) =~= part);
        assert((before + whole).take((before.len() + part.len()) as int) =~= before + whole.take(
            part.len() as int,
        ));
    }
    assert(all.take((before.len() + part.len()) as int) =~= all.take(next.len() as int).take(
        (before.len() + part.len()) as int,
    ));
}

/// The operations of the catalog, on every slot and file.
pub open spec fn catalog_operations() -> Seq<Op> {
    seq![
        Op::Close { slot: 0 },
        Op::Close { slot: 1 },
        Op::Open { slot: 0, file: FILES@[0], mode: OpenMode::AppendCreate },
        Op::Open { slot: 0, file: FILES@[1], mode: OpenMode::AppendCreate },
        Op::Open { slot: 0, file: FILES@[2], mode: OpenMode::AppendCreate },
        Op::Open { slot: 1, file: FILES@[0], mode: OpenMode::AppendCreate },
        Op::Open { slot: 1, file: FILES@[1], mode: OpenMode::AppendCreate },
        Op::Open { slot: 1, file: FILES@[2], mode: OpenMode::AppendCreate },
        Op::Open { slot: 0, file: FILES@[0], mode: OpenMode::ReadWriteCreate },
        Op::Open { slot: 0, file: FILES@[1], mode: OpenMode::ReadWriteCreate },
        Op::Open { slot: 0, file: FILES@[2], mode: OpenMode::ReadWriteCreate },
        Op::Open { slot: 1, file: FILES@[0], mode: OpenMode::ReadWriteCreate },
        Op::Open { slot: 1, file: FILES@[1], mode: OpenMode::ReadWriteCreate },
        Op::Open { slot: 1, file: FILES@[2], mode: OpenMode::ReadWriteCreate },
        Op::Read { slot: 0, size: ReadSize::Bytes32 },
        Op::Read { slot: 1, size: ReadSize::Bytes32 },
        Op::Write { slot: 0, payload: WritePayload::Bytes32 },
        Op::Write { slot: 1, payload: WritePayload::Bytes32 },
    ]
}

pub(crate) proof fn lemma_catalog_operations()
    ensures
        expansions(catalog()) == catalog_operations(),
{
    reveal_with_fuel(expansions, 6);
    let c = catalog();
    assert(c.drop_last() =~= seq![c[0], c[1], c[2], c[3]]);
    assert(c.drop_last().drop_last() =~= seq![c[0], c[1], c[2]]);
    assert(c.drop_last().drop_last().drop_last() =~= seq![c[0], c[1]]);
    assert(c.drop_last().drop_last().drop_last().drop_last() =~= seq![c[0]]);
    assert(c.drop_last().drop_last().drop_last().drop_last().drop_last() =~= Seq::empty());
    assert(FILES@.len() == 3);
    assert(expansions(c) =~= catalog_operations());
}

/// No case of a suite occurs twice, and each is its own normal form with a mutation in it.
pub proof fn law_suite_cases(len: nat, i: int, j: int)
    requires
        0 <= i < suite(len).len(),
        0 <= j < suite(len).len(),
    ensures
        chain_mutates(suite(len)[i].0),
        is_case(suite(len)[i].0, suite(len)[i].1),
        suite(len)[i].1 < schedules(len),
        suite(len)[i].0.len() == len,
        forall|k: int| 0 <= k < len ==> (#[trigger] suite(len)[i].0[k]).slots_exist(),
        i != j ==> suite(len)[i] != suite(len)[j],
{
    lemma_suite_members(len, chains_of(len), i);
    let c = lemma_case_chain(len, chains_of(len), i);
    lemma_chain_ops(len, c);
    lemma_pow_positive(18, len);
    if i < j {
        lemma_suite_distinct(len, chains_of(len), i, j);
    } else if j < i {
        lemma_suite_distinct(len, chains_of(len), j, i);
    }
}

proof fn lemma_templates_distinct()
    ensures
        expansions(catalog()).no_duplicates(),
{
    lemma_catalog_expansion();
    reveal_with_fuel(expansions, 6);
    let c = catalog();
    assert(c.drop_last() =~= seq![c[0], c[1], c[2], c[3]]);
    assert(c.drop_last().drop_last() =~= seq![c[0], c[1], c[2]]);
    assert(c.drop_last().drop_last().drop_last() =~= seq![c[0], c[1]]);
    assert(c.drop_last().drop_last().drop_last().drop_last() =~= seq![c[0]]);
    assert(c.drop_last().drop_last().drop_last().drop_last().drop_last() =~= Seq::empty());
    assert(FILES@ =~= seq![FileId::A, FileId::B, FileId::Fixture1]);
    assert(expansions(c) =~= expansion(c[0]) + expansion(c[1]) + expansion(c[2]) + expansion(c[3])
        + expansion(c[4]));
}

proof fn lemma_chain_numbers(len: nat, i: nat, j: nat)
    requires
        i < pow(18, len),
        j < pow(18, len),
        chain_at(expansions(catalog()), len, i) == chain_at(expansions(catalog()), len, j),
    ensures
        i == j,
    decreases len,
{
    lemma_catalog_expansion();
    lemma_templates_distinct();
    let t = expansions(catalog());
    if len == 0 {
        lemma_pow0(18);
    } else {
        lemma_pow_step(18, (len - 1) as nat);
        let a = chain_at(t, len, i);
        let b = chain_at(t, len, j);
        let a1 = chain_at(t, (len - 1) as nat, i / 18);
        let b1 = chain_at(t, (len - 1) as nat, j / 18);
        assert(a.last() == t[(i % 18) as int]);
        assert(b.last() == t[(j % 18) as int]);
        assert(a.drop_last() =~= a1);
        assert(b.drop_last() =~= b1);
        lemma_chain_numbers((len - 1) as nat, i / 18, j / 18);
    }
}

/// The number of the chain of a case.
proof fn lemma_case_chain(len: nat, k: nat, i: int) -> (c: nat)
    requires
        0 <= i < suite_upto(len, k).len(),
    ensures
        c < k,
        suite_upto(len, k)[i].0 == chain_at(expansions(catalog()), len, c),
    decreases k,
{
    let before = suite_upto(len, (k - 1) as nat);
    if i < before.len() {
        lemma_case_chain(len, (k - 1) as nat, i)
    } else {
        let chain = chain_at(expansions(catalog()), len, (k - 1) as nat);
        lemma_masked_members(chain, schedules(len), i - before.len());
        (k - 1) as nat
    }
}

proof fn lemma_suite_distinct(len: nat, k: nat, i: int, j: int)
    requires
        0 <= i < j < suite_upto(len, k).len(),
        k <= pow(18, len),
    ensures
        suite_upto(len, k)[i] != suite_upto(len, k)[j],
    decreases k,
{
    let before = suite_upto(len, (k - 1) as nat);
    let chain = chain_at(expansions(catalog()), len, (k - 1) as nat);
    if j < before.len() {
        lemma_suite_distinct(len, (k - 1) as nat, i, j);
    } else if i < before.len() {
        let c = lemma_case_chain(len, (k - 1) as nat, i);
        lemma_masked_members(chain, schedules(len), j - before.len());
        if suite_upto(len, k)[i] == suite_upto(len, k)[j] {
            lemma_chain_numbers(len, c, (k - 1) as nat);
        }
    } else {
        lemma_masked_distinct(chain, schedules(len), i - before.len(), j - before.len());
    }
}

proof fn lemma_masked_distinct(chain: Seq<Op>, masks: nat, i: int, j: int)
    requires
        0 <= i < j < masked_cases(chain, masks).len(),
    ensures
        masked_cases(chain, masks)[i] != masked_cases(chain, masks)[j],
    decreases masks,
{
    let before = masked_cases(chain, (masks - 1) as nat);
    if j < before.len() {
        lemma_masked_distinct(chain, (masks - 1) as nat, i, j);
    } else {
        lemma_masked_members(chain, (masks - 1) as nat, i);
    }
}

proof fn lemma_suite_members(len: nat, k: nat, i: int)
    requires
        0 <= i < suite_upto(len, k).len(),
    ensures
        chain_mutates(suite_upto(len, k)[i].0),
        is_case(suite_upto(len, k)[i].0, suite_upto(len, k)[i].1),
        suite_upto(len, k)[i].1 < schedules(len),
        suite_upto(len, k)[i].0.len() == len,
    decreases k,
{
    let before = suite_upto(len, (k - 1) as nat);
    if i < before.len() {
        lemma_suite_members(len, (k - 1) as nat, i);
    } else {
        let chain = chain_at(expansions(catalog()), len, (k - 1) as nat);
        lemma_chain_ops(len, (k - 1) as nat);
        lemma_masked_members(chain, schedules(len), i - before.len());
    }
}

proof fn lemma_masked_members(chain: Seq<Op>, masks: nat, i: int)
    requires
        0 <= i < masked_cases(chain, masks).len(),
    ensures
        masked_cases(chain, masks)[i].0 == chain,
        is_case(chain, masked_cases(chain, masks)[i].1),
        masked_cases(chain, masks)[i].1 < masks,
    decreases masks,
{
    let before = masked_cases(chain, (masks - 1) as nat);
    if i < before.len() {
        lemma_masked_members(chain, (masks - 1) as nat, i);
    }
}

} // verus!
