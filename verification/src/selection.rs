//! Which cases of a suite a run takes.

use rand::rngs::{OsRng, StdRng};
use rand::seq::SliceRandom;
use rand::{Rng, RngCore, SeedableRng};
use std::collections::BTreeSet;
use vstd::prelude::*;
use vstd::string::*;

use crate::cli::Cli;
use crate::codec::by_text;
use crate::compare::verdict_text;
use crate::ops::FILES;
use crate::text::{dec, push_dec};

verus! {

/// Fixture files that a run can give out.
pub const THEORY_TRIAL_1_FIXTURE_COUNT: usize = 20_000;

/// `rand`'s `StdRng`.
#[verifier::external_type_specification]
#[verifier::external_body]
pub struct ExStdRng(StdRng);

/// The words of state that a `StdRng` holds.
pub uninterp spec fn std_words(rng: StdRng) -> Seq<u32>;

/// The words that `SeedableRng::seed_from_u64` gives a `StdRng`.
pub uninterp spec fn std_seeded(seed: u64) -> Seq<u32>;

/// The order into which `rand`'s `SliceRandom::shuffle` brings `ids`, driven by a `StdRng`
/// that holds `words`.
pub uninterp spec fn shuffled(ids: Seq<usize>, words: Seq<u32>) -> Seq<usize>;

/// The number that `Rng::gen_range(min..=max)` draws from a `StdRng` that holds `words`, on a
/// machine whose `usize` has `bits` bits, and the words that it holds afterwards.
pub uninterp spec fn std_drawn(words: Seq<u32>, min: usize, max: usize, bits: u32) -> (
    usize,
    Seq<u32>,
);

/// Seeds a `StdRng` with `SeedableRng::seed_from_u64`. The seed determines its words.
#[verifier::external_body]
fn seed_std(seed: u64) -> (rng: StdRng)
    ensures
        std_words(rng) == std_seeded(seed),
{
    StdRng::seed_from_u64(seed)
}

/// Shuffles `ids` with `rand`'s `SliceRandom::shuffle`: the same items in an order that they
/// and the generator's words determine. What the generator holds afterwards is left unsaid.
#[verifier::external_body]
fn shuffle_ids(ids: &mut Vec<usize>, rng: &mut StdRng)
    ensures
        final(ids)@ == shuffled(old(ids)@, std_words(*old(rng))),
        final(ids)@.to_multiset() == old(ids)@.to_multiset(),
{
    ids.shuffle(rng);
}

/// Draws a number with `rand`'s `Rng::gen_range`; it is in the range. The generator's words,
/// the range and the size of a `usize` determine it, and what the generator holds afterwards.
#[verifier::external_body]
fn draw_id(rng: &mut StdRng, min: usize, max: usize) -> (id: usize)
    requires
        min <= max,
    ensures
        (id, std_words(*final(rng))) == std_drawn(std_words(*old(rng)), min, max, usize::BITS),
        min <= id <= max,
{
    rng.gen_range(min..=max)
}

/// Draws a seed from the system with `rand`'s `OsRng`, whose `try_fill_bytes` fails where the
/// system's source of random bytes does. Nothing holds of the seed or of the error's text.
#[verifier::external_body]
pub(crate) fn generated_sample_seed() -> (seed: Result<u64, String>) {
    let mut bytes = [0u8; 8];
    match OsRng.try_fill_bytes(&mut bytes) {
        Ok(()) => Ok(u64::from_le_bytes(bytes)),
        Err(e) => Err(e.to_string()),
    }
}

/// The words that a generator holds after `n` draws.
pub open spec fn words_after(seed: u64, total: usize, n: nat) -> Seq<u32>
    decreases n,
{
    if n == 0 {
        std_seeded(seed)
    } else {
        std_drawn(words_after(seed, total, (n - 1) as nat), 1, total, usize::BITS).1
    }
}

/// The numbers among the first `n` draws.
pub open spec fn drawn(seed: u64, total: usize, n: nat) -> Set<usize>
    decreases n,
{
    if n == 0 {
        Set::empty()
    } else {
        let before = words_after(seed, total, (n - 1) as nat);
        drawn(seed, total, (n - 1) as nat).insert(std_drawn(before, 1, total, usize::BITS).0)
    }
}

/// The numbers from one to `n`.
pub open spec fn up_to(n: nat) -> Seq<usize> {
    Seq::new(n, |i: int| (i + 1) as usize)
}

/// How many of `requested` cases there are to sample.
pub open spec fn sample_size(total: usize, requested: usize) -> usize {
    if requested < total {
        requested
    } else {
        total
    }
}

/// Whether `ids` is the sample of `requested` of the cases from one to `total`: the head of
/// their shuffled list where that is more than half of them, else the first numbers drawn,
/// up to as many different ones as are wanted.
pub open spec fn is_sample(ids: Set<usize>, total: usize, requested: usize, seed: u64) -> bool {
    let count = sample_size(total, requested);
    if total == 0 {
        ids == Set::<usize>::empty()
    } else if count > total / 2 {
        ids == shuffled(up_to(total as nat), std_seeded(seed)).take(count as int).to_set()
    } else {
        ids.len() == count && exists|n: nat| ids == #[trigger] drawn(seed, total, n)
    }
}

proof fn lemma_up_to(total: nat)
    requires
        total <= usize::MAX,
    ensures
        up_to(total).no_duplicates(),
        forall|id: usize| up_to(total).contains(id) <==> 1 <= id <= total,
{
    let s = up_to(total);
    assert forall|id: usize| s.contains(id) <==> 1 <= id <= total by {
        if 1 <= id <= total {
            assert(s[id - 1] == id);
        }
    }
}

proof fn lemma_permutation<A>(a: Seq<A>, b: Seq<A>)
    requires
        a.to_multiset() == b.to_multiset(),
        a.no_duplicates(),
    ensures
        b.no_duplicates(),
        a.len() == b.len(),
        forall|x: A| a.contains(x) <==> b.contains(x),
{
    broadcast use vstd::seq_lib::group_to_multiset_ensures;

    a.lemma_multiset_has_no_duplicates();
    b.lemma_multiset_has_no_duplicates_conv();
    assert(a.to_multiset().len() == a.len());
    assert(b.to_multiset().len() == b.len());
    assert forall|x: A| a.contains(x) <==> b.contains(x) by {
        assert(a.contains(x) <==> a.to_multiset().count(x) > 0);
        assert(b.contains(x) <==> b.to_multiset().count(x) > 0);
    }
}

proof fn lemma_drawn_grow(seed: u64, total: usize, low: nat, high: nat)
    requires
        low <= high,
    ensures
        drawn(seed, total, low).subset_of(drawn(seed, total, high)),
        drawn(seed, total, high).finite(),
        drawn(seed, total, low).len() <= drawn(seed, total, high).len(),
    decreases high,
{
    if low < high {
        lemma_drawn_grow(seed, total, low, (high - 1) as nat);
    } else {
        lemma_drawn_finite(seed, total, low);
    }
}

proof fn lemma_drawn_finite(seed: u64, total: usize, n: nat)
    ensures
        drawn(seed, total, n).finite(),
    decreases n,
{
    if n > 0 {
        lemma_drawn_finite(seed, total, (n - 1) as nat);
    }
}

/// The sample is determined: two sets that are each the sample are one.
pub proof fn law_sample_is_determined(
    a: Set<usize>,
    b: Set<usize>,
    total: usize,
    requested: usize,
    seed: u64,
)
    requires
        is_sample(a, total, requested, seed),
        is_sample(b, total, requested, seed),
    ensures
        a == b,
{
    if total > 0 && sample_size(total, requested) <= total / 2 {
        let n = choose|n: nat| a == #[trigger] drawn(seed, total, n);
        let m = choose|m: nat| b == #[trigger] drawn(seed, total, m);
        if n <= m {
            lemma_drawn_grow(seed, total, n, m);
            vstd::set_lib::lemma_subset_equality(a, b);
        } else {
            lemma_drawn_grow(seed, total, m, n);
            vstd::set_lib::lemma_subset_equality(b, a);
        }
    }
}

/// Draws that `sample_case_ids` makes at most.
pub const MAX_SAMPLE_DRAWS: usize = usize::MAX;

/// The sample of `requested` of the cases from one to `total_cases`. It fails only where
/// as many draws as a machine can count do not give enough different numbers.
pub fn sample_case_ids(total_cases: usize, requested: usize, seed: u64) -> (r: Result<
    BTreeSet<usize>,
    String,
>)
    ensures
        r matches Ok(ids) ==> {
            &&& is_sample(ids@, total_cases, requested, seed)
            &&& ids@.finite()
            &&& ids@.len() == sample_size(total_cases, requested)
            &&& forall|id: usize| #[trigger] ids@.contains(id) ==> 1 <= id <= total_cases
        },
        r matches Err(e) ==> {
            &&& e@ == "oracle sample needs too many draws"@
            &&& 0 < sample_size(total_cases, requested) <= total_cases / 2
            &&& drawn(seed, total_cases, MAX_SAMPLE_DRAWS as nat).len() < sample_size(
                total_cases,
                requested,
            )
        },
{
    if total_cases == 0 {
        return Ok(BTreeSet::new());
    }
    let count: usize = if requested < total_cases {
        requested
    } else {
        total_cases
    };
    let mut rng = seed_std(seed);
    if count > total_cases / 2 {
        let mut all: Vec<usize> = Vec::new();
        let mut next: usize = 0;
        assert(all@ =~= up_to(0));
        while next < total_cases
            invariant
                next <= total_cases,
                all@ == up_to(next as nat),
            decreases total_cases - next,
        {
            next = next + 1;
            all.push(next);
            assert(all@ =~= up_to(next as nat));
        }
        let mut order = all;
        shuffle_ids(&mut order, &mut rng);
        proof {
            lemma_up_to(total_cases as nat);
            lemma_permutation(up_to(total_cases as nat), order@);
        }
        let mut ids: BTreeSet<usize> = BTreeSet::new();
        let mut i: usize = 0;
        assert(order@.take(0).to_set() =~= Set::empty());
        while i < count
            invariant
                i <= count <= order@.len(),
                order@.no_duplicates(),
                ids@ == order@.take(i as int).to_set(),
                ids@.finite(),
                ids@.len() == i,
            decreases count - i,
        {
            proof {
                let head = order@.take(i as int);
                let more = order@.take(i as int + 1);
                assert(more =~= head.push(order@[i as int]));
                if head.contains(order@[i as int]) {
                    let j = choose|j: int| 0 <= j < head.len() && head[j] == order@[i as int];
                    assert(order@[j] == order@[i as int]);
                }
                assert(!head.to_set().contains(order@[i as int]));
                assert(more.to_set() =~= head.to_set().insert(order@[i as int])) by {
                    assert forall|x: usize| more.to_set().contains(x) <==> #[trigger] head.to_set().insert(
                        order@[i as int],
                    ).contains(x) by {
                        if more.contains(x) {
                            let j = choose|j: int| 0 <= j < more.len() && more[j] == x;
                            if j < i {
                                assert(head[j] == x);
                            }
                        }
                        if head.contains(x) {
                            let j = choose|j: int| 0 <= j < head.len() && head[j] == x;
                            assert(more[j] == x);
                        }
                        assert(more[i as int] == order@[i as int]);
                    }
                }
            }
            ids.insert(order[i]);
            i = i + 1;
        }
        proof {
            let head = order@.take(count as int);
            assert forall|id: usize| #[trigger] ids@.contains(id) implies 1 <= id <= total_cases by {
                assert(head.contains(id));
                let j = choose|j: int| 0 <= j < head.len() && head[j] == id;
                assert(order@[j] == id);
                assert(order@.contains(id));
            }
        }
        return Ok(ids);
    }
    let mut ids: BTreeSet<usize> = BTreeSet::new();
    let mut draws: usize = 0;
    while ids.len() < count
        invariant
            0 < total_cases,
            count == sample_size(total_cases, requested),
            count <= total_cases / 2,
            std_words(rng) == words_after(seed, total_cases, draws as nat),
            ids@ == drawn(seed, total_cases, draws as nat),
            ids@.finite(),
            ids@.len() <= count,
            forall|id: usize| #[trigger] ids@.contains(id) ==> 1 <= id <= total_cases,
        decreases MAX_SAMPLE_DRAWS - draws,
    {
        if draws == MAX_SAMPLE_DRAWS {
            return Err("oracle sample needs too many draws".to_string());
        }
        let id: usize = draw_id(&mut rng, 1, total_cases);
        ids.insert(id);
        draws = draws + 1;
    }
    Ok(ids)
}

/// A range of cases: the first one, counted from one, and how many, or all.
#[derive(Clone, Copy, Debug, PartialEq, Eq, Structural)]
pub struct OracleShard {
    pub start: usize,
    pub count: Option<usize>,
}

#[derive(Clone, Copy, Debug, PartialEq, Eq, Structural)]
pub enum OracleSelection {
    Exhaustive(OracleShard),
    Sample { count: usize, seed: u64 },
}

/// The cases of a run.
pub enum OracleCaseSelection {
    Range { start: usize, end: usize, count: usize },
    Sample { count: usize, ids: BTreeSet<usize> },
}

impl OracleShard {
    /// The first case that the options ask for; one where they do not say.
    pub open spec fn asked_start(start: Option<usize>) -> usize {
        match start {
            Some(start) => start,
            None => 1,
        }
    }

    pub fn from_cli(cli: &Cli) -> (r: Result<Self, String>)
        ensures
            match r {
                Ok(shard) => {
                    &&& shard.start == OracleShard::asked_start(cli.oracle_case_start)
                    &&& shard.count == cli.oracle_case_count
                    &&& shard.start != 0
                    &&& shard.count != Some(0usize)
                },
                Err(e) => if OracleShard::asked_start(cli.oracle_case_start) == 0 {
                    e@ == "--case-start must be greater than zero"@
                } else {
                    cli.oracle_case_count == Some(0usize) && e@
                        == "--case-count must be greater than zero"@
                },
            },
    {
        let start: usize = match cli.oracle_case_start {
            Some(start) => start,
            None => 1,
        };
        if start == 0 {
            return Err("--case-start must be greater than zero".to_string());
        }
        if let Some(count) = cli.oracle_case_count {
            if count == 0 {
                return Err("--case-count must be greater than zero".to_string());
            }
        }
        Ok(OracleShard { start, count: cli.oracle_case_count })
    }

    /// Where the shard ends among `total_cases` cases: past its last one.
    pub open spec fn end_of(self, total_cases: usize) -> int {
        let past = total_cases + 1;
        match self.count {
            Some(count) => if self.start + count < past {
                self.start + count
            } else {
                past
            },
            None => past,
        }
    }

    pub fn end_exclusive(self, total_cases: usize) -> (r: Result<usize, String>)
        requires
            total_cases < usize::MAX,
        ensures
            match r {
                Ok(end) => {
                    &&& self.start <= total_cases
                    &&& end == self.end_of(total_cases)
                    &&& self.count matches Some(count) ==> self.start + count <= usize::MAX
                },
                Err(e) => if self.start > total_cases {
                    e@ == "--case-start "@ + dec(self.start as nat) + " is past final case "@ + dec(
                        total_cases as nat,
                    )
                } else {
                    &&& self.count matches Some(count) && self.start + count > usize::MAX
                    &&& e@ == "--case-start + --case-count overflows usize"@
                },
            },
    {
        if self.start > total_cases {
            let mut e = "--case-start ".to_string();
            push_dec(&mut e, self.start as u64);
            e.append(" is past final case ");
            push_dec(&mut e, total_cases as u64);
            return Err(e);
        }
        let past: usize = total_cases + 1;
        let requested_end: usize = match self.count {
            Some(count) => match self.start.checked_add(count) {
                Some(end) => end,
                None => {
                    return Err("--case-start + --case-count overflows usize".to_string());
                },
            },
            None => past,
        };
        if requested_end < past {
            Ok(requested_end)
        } else {
            Ok(past)
        }
    }
}

/// What the options ask for, where a sample takes `seed`; or what is wrong with them.
pub open spec fn selection_asked(cli: Cli, seed: u64) -> Result<OracleSelection, Seq<char>> {
    match cli.oracle_sample_count {
        Some(count) => if count == 0 {
            Err("--oracle-sample-count must be greater than zero"@)
        } else if cli.oracle_case_start is Some || cli.oracle_case_count is Some {
            Err("--oracle-sample-count cannot be combined with --case-start or --case-count"@)
        } else {
            Ok(OracleSelection::Sample { count, seed })
        },
        None => {
            let start = OracleShard::asked_start(cli.oracle_case_start);
            if start == 0 {
                Err("--case-start must be greater than zero"@)
            } else if cli.oracle_case_count == Some(0usize) {
                Err("--case-count must be greater than zero"@)
            } else {
                Ok(OracleSelection::Exhaustive(OracleShard { start, count: cli.oracle_case_count }))
            }
        },
    }
}

/// Whether the options ask for a sample, with nothing wrong, and give it no seed.
pub open spec fn draws_seed(cli: Cli) -> bool {
    &&& cli.oracle_sample_count matches Some(count) && count > 0
    &&& cli.oracle_case_start is None
    &&& cli.oracle_case_count is None
    &&& cli.seed is None
}

/// What the options ask for, where `drawn` is what came of drawing the seed of a sample that
/// has none.
pub open spec fn selection_drawn(cli: Cli, drawn: Result<u64, Seq<char>>) -> Result<
    OracleSelection,
    Seq<char>,
> {
    if draws_seed(cli) {
        match drawn {
            Ok(seed) => selection_asked(cli, seed),
            Err(e) => Err(e),
        }
    } else {
        selection_asked(
            cli,
            match cli.seed {
                Some(seed) => seed,
                None => 0,
            },
        )
    }
}

/// Whether a seed has to be drawn.
pub fn seed_is_drawn(cli: &Cli) -> (r: bool)
    ensures
        r == draws_seed(*cli),
{
    match cli.oracle_sample_count {
        Some(count) => count > 0 && cli.oracle_case_start.is_none()
            && cli.oracle_case_count.is_none() && cli.seed.is_none(),
        None => false,
    }
}

impl OracleSelection {
    /// What the options ask for, where a sample takes `seed`.
    pub fn from_cli_with_seed(cli: &Cli, seed: u64) -> (r: Result<Self, String>)
        ensures
            by_text(r) == selection_asked(*cli, seed),
    {
        match cli.oracle_sample_count {
            Some(count) => {
                if count == 0 {
                    return Err("--oracle-sample-count must be greater than zero".to_string());
                }
                if cli.oracle_case_start.is_some() || cli.oracle_case_count.is_some() {
                    return Err(
                        "--oracle-sample-count cannot be combined with --case-start or --case-count".to_string(),
                    );
                }
                Ok(OracleSelection::Sample { count, seed })
            },
            None => match OracleShard::from_cli(cli) {
                Ok(shard) => Ok(OracleSelection::Exhaustive(shard)),
                Err(e) => Err(e),
            },
        }
    }

    /// What the options ask for, where `drawn` came of drawing the seed of a sample that is
    /// asked for without one.
    pub fn from_cli_with_drawn(cli: &Cli, drawn: Result<u64, String>) -> (r: Result<Self, String>)
        ensures
            by_text(r) == selection_drawn(*cli, by_text(drawn)),
    {
        let seed: u64 = if seed_is_drawn(cli) {
            match drawn {
                Ok(seed) => seed,
                Err(e) => {
                    return Err(e);
                },
            }
        } else {
            match cli.seed {
                Some(seed) => seed,
                None => 0,
            }
        };
        OracleSelection::from_cli_with_seed(cli, seed)
    }

    /// What the options ask for. A sample without a seed gets one by chance, or none can be
    /// drawn, which is an error.
    pub fn from_cli(cli: &Cli) -> (r: Result<Self, String>)
        ensures
            exists|drawn: Result<u64, Seq<char>>|
                by_text(r) == #[trigger] selection_drawn(*cli, drawn),
    {
        let drawn = if seed_is_drawn(cli) {
            generated_sample_seed()
        } else {
            Ok(0)
        };
        OracleSelection::from_cli_with_drawn(cli, drawn)
    }

    /// The cases to take out of `total_cases`.
    pub fn selected_case_ids(self, total_cases: usize) -> (r: Result<OracleCaseSelection, String>)
        requires
            self is Exhaustive ==> total_cases < usize::MAX,
        ensures
            match (self, r) {
                (OracleSelection::Exhaustive(shard), Ok(selected)) => {
                    &&& shard.start <= total_cases
                    &&& shard.count matches Some(count) ==> shard.start + count <= usize::MAX
                    &&& selected matches OracleCaseSelection::Range { start, end, count } && start
                        == shard.start && end == shard.end_of(total_cases) && count == end - start
                },
                (OracleSelection::Exhaustive(shard), Err(e)) => if shard.start > total_cases {
                    e@ == "--case-start "@ + dec(shard.start as nat) + " is past final case "@ + dec(
                        total_cases as nat,
                    )
                } else {
                    &&& shard.count matches Some(count) && shard.start + count > usize::MAX
                    &&& e@ == "--case-start + --case-count overflows usize"@
                },
                (OracleSelection::Sample { count, seed }, Ok(selected)) => {
                    &&& selected matches OracleCaseSelection::Sample { count: c, ids } && is_sample(
                        ids@,
                        total_cases,
                        count,
                        seed,
                    ) && c == sample_size(total_cases, count) && (forall|id: usize| #[trigger]
                        ids@.contains(id) ==> 1 <= id <= total_cases)
                },
                (OracleSelection::Sample { count, seed }, Err(e)) => {
                    &&& e@ == "oracle sample needs too many draws"@
                    &&& drawn(seed, total_cases, MAX_SAMPLE_DRAWS as nat).len()
                        < sample_size(total_cases, count)
                    &&& sample_size(total_cases, count) <= total_cases / 2
                },
            },
            r matches Ok(selected) ==> selected.wf(),
    {
        match self {
            OracleSelection::Exhaustive(shard) => match shard.end_exclusive(total_cases) {
                Ok(end) => Ok(
                    OracleCaseSelection::Range { start: shard.start, end, count: end - shard.start },
                ),
                Err(e) => Err(e),
            },
            OracleSelection::Sample { count, seed } => match sample_case_ids(
                total_cases,
                count,
                seed,
            ) {
                Ok(ids) => Ok(OracleCaseSelection::Sample { count: ids.len(), ids }),
                Err(e) => Err(e),
            },
        }
    }

    pub fn enforces_runtime_fixture_limit(self) -> (r: bool)
        ensures
            r == match self {
                OracleSelection::Sample { .. } => true,
                OracleSelection::Exhaustive(shard) => shard.count is Some,
            },
    {
        match self {
            OracleSelection::Sample { .. } => true,
            OracleSelection::Exhaustive(shard) => shard.count.is_some(),
        }
    }
}

impl OracleCaseSelection {
    /// Whether the count is the number of the cases.
    pub open spec fn wf(&self) -> bool {
        match *self {
            OracleCaseSelection::Range { start, end, count } => start <= end && count == end
                - start,
            OracleCaseSelection::Sample { count, ids } => ids@.finite() && count == ids@.len(),
        }
    }

    /// The cases that are selected.
    pub open spec fn cases(&self) -> Set<usize> {
        match *self {
            OracleCaseSelection::Range { start, end, .. } => Set::new(
                |id: usize| start <= id < end,
            ),
            OracleCaseSelection::Sample { ids, .. } => ids@,
        }
    }

    /// How many cases are selected.
    pub open spec fn size(&self) -> usize {
        match *self {
            OracleCaseSelection::Range { count, .. } => count,
            OracleCaseSelection::Sample { count, .. } => count,
        }
    }

    pub fn len(&self) -> (n: usize)
        ensures
            n == self.size(),
    {
        match self {
            OracleCaseSelection::Range { count, .. } => *count,
            OracleCaseSelection::Sample { count, .. } => *count,
        }
    }

    pub fn contains(&self, case_id: usize) -> (r: bool)
        ensures
            r == self.cases().contains(case_id),
    {
        match self {
            OracleCaseSelection::Range { start, end, .. } => case_id >= *start && case_id < *end,
            OracleCaseSelection::Sample { ids, .. } => ids.contains(&case_id),
        }
    }

    pub fn is_complete(&self, visited: usize) -> (r: bool)
        ensures
            r == (visited >= self.size()),
    {
        visited >= self.len()
    }
}

/// The number of a selection is that of its cases.
pub proof fn law_selection_counts_its_cases(selected: OracleCaseSelection)
    requires
        selected.wf(),
    ensures
        selected.cases().finite(),
        selected.cases().len() == selected.size(),
{
    if let OracleCaseSelection::Range { start, end, count } = selected {
        lemma_range_size(start, end);
    }
}

proof fn lemma_range_size(start: usize, end: usize)
    requires
        start <= end,
    ensures
        Set::<usize>::new(|id: usize| start <= id < end).finite(),
        Set::<usize>::new(|id: usize| start <= id < end).len() == end - start,
    decreases end - start,
{
    let all = Set::<usize>::new(|id: usize| start <= id < end);
    if start == end {
        assert(all =~= Set::empty());
    } else {
        let less = (end - 1) as usize;
        lemma_range_size(start, less);
        assert(all =~= Set::<usize>::new(|id: usize| start <= id < less).insert(less));
    }
}

/// Whether a fixture is among the files that the catalog's operations name.
pub fn active_catalog_uses_fixtures() -> (r: bool)
    ensures
        r == exists|i: int| 0 <= i < FILES@.len() && (#[trigger] FILES@[i] is Fixture1 || FILES@[i] is Fixture2),
        r,
{
    let mut i: usize = 0;
    assert(FILES@[2] is Fixture1);
    while i < 3
        invariant
            i <= 3,
            FILES@.len() == 3,
            FILES@[2] is Fixture1,
            forall|j: int| 0 <= j < i ==> !(FILES@[j] is Fixture1) && !(FILES@[j] is Fixture2),
        decreases 3 - i,
    {
        if FILES[i].is_fixture() {
            return true;
        }
        i = i + 1;
    }
    false
}

pub open spec fn fixtures_text(selected: nat) -> Seq<char> {
    "selected oracle case count "@ + dec(selected) + " exceeds fixture pool size "@ + dec(
        THEORY_TRIAL_1_FIXTURE_COUNT as nat,
    ) + "; shard/sample the run to at most "@ + dec(THEORY_TRIAL_1_FIXTURE_COUNT as nat)
        + " cases or generate more fixtures"@
}

/// A run needs a fixture for each of its cases.
pub fn ensure_selected_fixtures_available(selection: &OracleCaseSelection) -> (r: Result<
    (),
    String,
>)
    ensures
        verdict_text(r) == if selection.size() > THEORY_TRIAL_1_FIXTURE_COUNT {
            Err(fixtures_text(selection.size() as nat))
        } else {
            Ok(())
        },
{
    if !active_catalog_uses_fixtures() {
        return Ok(());
    }
    let selected: usize = selection.len();
    if selected > THEORY_TRIAL_1_FIXTURE_COUNT {
        let mut e = "selected oracle case count ".to_string();
        push_dec(&mut e, selected as u64);
        e.append(" exceeds fixture pool size ");
        push_dec(&mut e, THEORY_TRIAL_1_FIXTURE_COUNT as u64);
        e.append("; shard/sample the run to at most ");
        push_dec(&mut e, THEORY_TRIAL_1_FIXTURE_COUNT as u64);
        e.append(" cases or generate more fixtures");
        return Err(e);
    }
    Ok(())
}

/// The fixture of a case: its own where there are fixtures for all cases, else the one of
/// its place in the run.
pub fn selected_run_fixture_id(total_cases: usize, case_id: usize, selected_ordinal: usize) -> (id:
    usize)
    ensures
        id == if total_cases <= THEORY_TRIAL_1_FIXTURE_COUNT {
            case_id
        } else {
            selected_ordinal
        },
{
    if total_cases <= THEORY_TRIAL_1_FIXTURE_COUNT {
        case_id
    } else {
        selected_ordinal
    }
}

} // verus!
