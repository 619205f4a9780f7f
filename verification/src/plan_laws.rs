//! Which cases a run takes, and what it does with them.

use vstd::prelude::*;

use crate::cli::Cli;
use crate::coordinator::broad_root;
use crate::oracle::{
    is_broad_root, phases_of, planned, run_root_text, OraclePlan, PhaseView,
};
use crate::paths::joined_path;
use crate::selection::{
    drawn, is_sample, sample_size, selection_asked, selection_drawn, shuffled, std_drawn,
    std_seeded, up_to, words_after, OracleSelection, OracleShard,
};
use crate::text::{dec, pad_left};

verus! {

/// Whether a case belongs to a shard of the cases from one to `total`.
pub open spec fn in_shard(shard: OracleShard, total: usize, id: int) -> bool {
    shard.start <= id < shard.end_of(total)
}

/// A shard has the cases from its first on, as many as it counts and as there are.
pub proof fn law_shard_has_its_cases(shard: OracleShard, total: usize, id: int)
    ensures
        in_shard(shard, total, id) <==> {
            &&& shard.start <= id <= total
            &&& shard.count is Some ==> id < shard.start + shard.count->0
        },
{
}

/// Shards that follow one another have no case in common, and together those of the shard that
/// covers both.
pub proof fn law_shards_make_the_whole(start: usize, first: usize, second: usize, total: usize, id: int)
    requires
        start + first + second <= usize::MAX,
    ensures
        ({
            let a = OracleShard { start, count: Some(first) };
            let b = OracleShard { start: (start + first) as usize, count: Some(second) };
            let both = OracleShard { start, count: Some((first + second) as usize) };
            let rest = OracleShard { start: (start + first) as usize, count: None };
            let all = OracleShard { start, count: None };
            &&& !(in_shard(a, total, id) && in_shard(b, total, id))
            &&& in_shard(both, total, id) <==> in_shard(a, total, id) || in_shard(b, total, id)
            &&& in_shard(all, total, id) <==> in_shard(a, total, id) || in_shard(rest, total, id)
            &&& start == 1 ==> (in_shard(all, total, id) <==> 1 <= id <= total)
        }),
{
}

/// A sample is no larger than what is asked for and than what there is, and one of the two.
pub proof fn law_sample_sizes(total: usize, requested: usize)
    ensures
        sample_size(total, requested) <= total,
        sample_size(total, requested) <= requested,
        sample_size(total, requested) == total || sample_size(total, requested) == requested,
{
}

/// What the options select: a sample of as many cases as they say, or the shard that they
/// name, from the first case where they name no start, and to the last where they give no
/// count. Nothing may be zero, and a sample is not a shard.
pub proof fn law_options_select(cli: Cli, seed: u64)
    ensures
        selection_asked(cli, seed) is Ok <==> {
            &&& cli.oracle_sample_count is Some ==> cli.oracle_sample_count->0 > 0
                && cli.oracle_case_start is None && cli.oracle_case_count is None
            &&& cli.oracle_case_start is Some ==> cli.oracle_case_start->0 > 0
            &&& cli.oracle_case_count is Some ==> cli.oracle_case_count->0 > 0
        },
        selection_asked(cli, seed) matches Ok(OracleSelection::Sample { count, seed: used })
            ==> cli.oracle_sample_count == Some(count) && used == seed,
        selection_asked(cli, seed) matches Ok(OracleSelection::Exhaustive(shard)) ==> {
            &&& cli.oracle_sample_count is None
            &&& shard.count == cli.oracle_case_count
            &&& cli.oracle_case_start is Some ==> shard.start == cli.oracle_case_start->0
            &&& cli.oracle_case_start is None ==> shard.start == 1
        },
{
}

/// A sample has the seed that the options give; only where they give none is one drawn, and a
/// shard needs none.
pub proof fn law_samples_have_the_given_seed(cli: Cli, drawn: Result<u64, Seq<char>>)
    ensures
        selection_drawn(cli, drawn) matches Ok(OracleSelection::Sample { count, seed }) ==> {
            &&& cli.seed is Some ==> seed == cli.seed->0
            &&& cli.seed is None ==> drawn == Ok::<u64, Seq<char>>(seed)
            &&& cli.oracle_sample_count == Some(count)
        },
        cli.seed is Some || cli.oracle_sample_count is None ==> selection_drawn(cli, drawn)
            == selection_drawn(cli, Ok(0)),
        selection_drawn(cli, drawn) is Err && drawn is Ok ==> selection_asked(cli, 0) is Err,
{
}

/// A plan has the length of chains that the options ask for, or two; it writes its report where
/// they say, or under the root, and compares it with the report that they name, if any. No
/// plan has chains of length zero.
pub proof fn law_plans_follow_the_options(
    r: Result<OraclePlan, String>,
    cli: Cli,
    root: Seq<char>,
    selected: Result<OracleSelection, Seq<char>>,
)
    requires
        planned(r, cli, root, selected),
        cli.numops matches Some(n) ==> n <= usize::MAX,
    ensures
        r is Ok <==> selected is Ok && cli.numops != Some(0u64),
        r matches Ok(plan) ==> {
            &&& cli.numops is Some ==> plan.len == cli.numops->0
            &&& cli.numops is None ==> plan.len == 2
            &&& selected == Ok::<OracleSelection, Seq<char>>(plan.selection)
            &&& cli.oracle_output is Some ==> plan.output@ == cli.oracle_output->0@
            &&& cli.oracle_output is None ==> plan.output@ == joined_path(
                root,
                "oracle-report.bin"@,
            )
            &&& plan.expected is Some <==> cli.oracle_expected is Some
            &&& plan.expected is Some ==> plan.expected->0@ == cli.oracle_expected->0@
            &&& plan.announces <==> cli.oracle_expected is None && cli.oracle_output is None
        },
{
}

/// A run is compared with a report just where one is named: a shard once it has run, a sample
/// while it runs. Without one, the cases run and nothing is compared.
pub proof fn law_runs_compare_with_the_named_report(plan: OraclePlan)
    ensures
        ({
            let phases = phases_of(plan);
            &&& plan.expected is Some && plan.selection is Exhaustive ==> exists|i: int, j: int|
                0 <= i < j < phases.len() && #[trigger] phases[i] is Suite && #[trigger] phases[j]
                    == (PhaseView::Compare { expected: plan.expected->0@ })
            &&& plan.expected is Some && plan.selection is Sample ==> exists|i: int|
                0 <= i < phases.len() && #[trigger] phases[i] == (PhaseView::Stream {
                    count: plan.selection->count,
                    seed: plan.selection->seed,
                    expected: plan.expected->0@,
                })
            &&& plan.expected is None ==> exists|i: int|
                0 <= i < phases.len() && #[trigger] phases[i] is Suite
            &&& plan.expected is None ==> forall|i: int|
                0 <= i < phases.len() ==> !((#[trigger] phases[i]) is Compare) && !(
                phases[i] is Stream)
        }),
        ({
            let phases = phases_of(plan);
            &&& forall|i: int|
                0 <= i < phases.len() && (#[trigger] phases[i]) is Suite ==> plan.expected is None
                    || plan.selection is Exhaustive
            &&& forall|i: int|
                0 <= i < phases.len() && (#[trigger] phases[i]) is Compare ==> plan.expected is Some
                    && plan.selection is Exhaustive
            &&& plan.expected is None && plan.announces ==> phases.last() is Announce
            &&& forall|i: int|
                0 <= i < phases.len() && (#[trigger] phases[i]) is Announce ==> plan.announces
        }),
{
    let phases = phases_of(plan);
    match (plan.selection, plan.expected) {
        (OracleSelection::Exhaustive(_), Some(e)) => {
            assert(phases[0] is Suite);
            assert(phases[2] == (PhaseView::Compare { expected: plan.expected->0@ }));
        },
        (OracleSelection::Exhaustive(_), None) => {
            assert(phases[0] is Suite);
        },
        (OracleSelection::Sample { count, seed }, Some(e)) => {
            assert(phases[2] == (PhaseView::Stream {
                count: plan.selection->count,
                seed: plan.selection->seed,
                expected: plan.expected->0@,
            }));
        },
        (OracleSelection::Sample { .. }, None) => {
            assert(phases[1] is Suite);
        },
    }
}

/// Runs have directories of their own: two of different numbers have different ones.
pub proof fn law_runs_have_own_roots(root: Seq<char>, a: nat, b: nat)
    requires
        run_root_text(root, a) == run_root_text(root, b),
    ensures
        a == b,
{
    reveal_strlit("run-");
    reveal_strlit("/");
    let x = pad_left(dec(a), 6, '0');
    let y = pad_left(dec(b), 6, '0');
    let s = "run-"@ + x;
    let t = "run-"@ + y;
    assert(s[0] == 'r' && t[0] == 'r');
    let front = if root.len() == 0 {
        Seq::empty()
    } else if root.last() == '/' {
        root
    } else {
        root + "/"@
    };
    assert(run_root_text(root, a) =~= front + "run-"@ + x);
    assert(run_root_text(root, b) =~= front + "run-"@ + y);
    let n = (front + "run-"@).len() as int;
    assert(x =~= run_root_text(root, a).skip(n));
    assert(y =~= run_root_text(root, b).skip(n));
    crate::text_laws::law_digits_make_the_number(a);
    crate::text_laws::law_digits_make_the_number(b);
    lemma_padded_value(dec(a), 6);
    lemma_padded_value(dec(b), 6);
}

pub(crate) proof fn lemma_padded_value(s: Seq<char>, width: nat)
    ensures
        crate::http_laws::decimal(pad_left(s, width, '0')) == crate::http_laws::decimal(s),
{
    if s.len() < width {
        let zeros = crate::text::repeated('0', (width - s.len()) as nat);
        lemma_zeros(zeros, s);
    }
}

proof fn lemma_zeros(zeros: Seq<char>, s: Seq<char>)
    requires
        forall|i: int| 0 <= i < zeros.len() ==> #[trigger] zeros[i] == '0',
    ensures
        crate::http_laws::decimal(zeros + s) == crate::http_laws::decimal(s),
    decreases zeros.len() + s.len(),
{
    let all = zeros + s;
    if s.len() > 0 {
        lemma_zeros(zeros, s.drop_last());
        assert(all.drop_last() =~= zeros + s.drop_last());
        assert(all.last() == s.last());
    } else if zeros.len() > 0 {
        lemma_zeros(zeros.drop_last(), s);
        assert(all =~= zeros);
        assert(all.drop_last() =~= zeros.drop_last() + s);
        assert(all.last() == zeros[zeros.len() - 1]);
    }
}

/// A sample of more than half of the cases is the head of their shuffled list; a smaller one
/// has the first numbers that are drawn, as many different ones as are wanted.
pub proof fn law_samples_are_shuffled_or_drawn(
    ids: Set<usize>,
    total: usize,
    requested: usize,
    seed: u64,
)
    requires
        is_sample(ids, total, requested, seed),
    ensures
        total == 0 ==> ids == Set::<usize>::empty(),
        total > 0 && requested >= total ==> ids == shuffled(
            up_to(total as nat),
            std_seeded(seed),
        ).take(total as int).to_set(),
        requested < total && 2 * requested > total ==> ids == shuffled(
            up_to(total as nat),
            std_seeded(seed),
        ).take(requested as int).to_set(),
        requested < total && 2 * requested <= total ==> ids.len() == requested && exists|n: nat|
            ids == #[trigger] drawn(seed, total, n),
        forall|i: int| 0 <= i < total ==> #[trigger] up_to(total as nat)[i] == i + 1,
{
}

/// What is drawn is drawn from one number to the other, each with what the draw before left.
pub proof fn law_draws_add_one_number(seed: u64, total: usize, n: nat, id: usize)
    ensures
        drawn(seed, total, n + 1).contains(id) <==> drawn(seed, total, n).contains(id) || id
            == std_drawn(words_after(seed, total, n), 1, total, usize::BITS).0,
        words_after(seed, total, n + 1) == std_drawn(
            words_after(seed, total, n),
            1,
            total,
            usize::BITS,
        ).1,
        words_after(seed, total, 0) == std_seeded(seed),
        !drawn(seed, total, 0).contains(id),
{
}

/// The roots that others use are the root of the file system and three directories in it; a
/// directory below one of these is none of them.
pub proof fn law_broad_roots(root: Seq<char>)
    ensures
        is_broad_root(root) <==> root == seq!['/'] || root == seq!['/', 't', 'm', 'p'] || root
            == seq!['/', 'd', 'a', 't', 'a'] || root == seq!['/', 'v', 'o', 'l', 'u', 'm', 'e'],
        broad_root(root) <==> root == seq!['/'] || root == seq!['/', 't', 'm', 'p'] || root == seq![
            '/',
            'd',
            'a',
            't',
            'a',
        ] || root == seq!['/', 'w', 'o', 'r', 'k'],
{
    reveal_strlit("/");
    reveal_strlit("/tmp");
    reveal_strlit("/data");
    reveal_strlit("/volume");
    reveal_strlit("/work");
    assert("/"@ =~= seq!['/']);
    assert("/tmp"@ =~= seq!['/', 't', 'm', 'p']);
    assert("/data"@ =~= seq!['/', 'd', 'a', 't', 'a']);
    assert("/volume"@ =~= seq!['/', 'v', 'o', 'l', 'u', 'm', 'e']);
    assert("/work"@ =~= seq!['/', 'w', 'o', 'r', 'k']);
}

/// What is told of a run names the report that it writes, and no other report than the one that
/// it is compared with.
pub proof fn law_statuses_name_the_reports(plan: OraclePlan, i: int)
    requires
        0 <= i < phases_of(plan).len(),
        phases_of(plan)[i] is Say,
    ensures
        ({
            let status = phases_of(plan)[i]->status;
            &&& status.actual == Some(plan.output@)
            &&& status.expected is Some ==> plan.expected is Some && status.expected->0
                == plan.expected->0@
            &&& status.expected is None <==> status.phase == "sampling"@
            &&& status.phase == "verifying"@ ==> i + 1 < phases_of(plan).len() && (phases_of(
                plan,
            )[i + 1] is Compare || phases_of(plan)[i + 1] is Stream)
            &&& status.phase == "verified"@ ==> i == phases_of(plan).len() - 1 && (phases_of(
                plan,
            )[i - 1] is Compare || phases_of(plan)[i - 1] is Stream)
        }),
{
    reveal_strlit("sampling");
    reveal_strlit("verifying");
    reveal_strlit("verified");
    assert("sampling"@[0] != "verifying"@[0]);
    assert("sampling"@[0] != "verified"@[0]);
    assert("verifying"@.len() != "verified"@.len());
}

} // verus!
