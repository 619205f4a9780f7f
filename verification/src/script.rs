//! Scenarios, round by round.

use rand_xorshift::XorShiftRng;
use vstd::prelude::*;
use vstd::string::*;

use crate::coordinator::{next_kind, round_rng, Coordinator};
use crate::moves::moves_of;
use crate::scenario::{
    drawn_kind, kind_named, move_views, rounds, rounds_of, scenario_kind, Move, RunConfig,
    ScenarioKind,
};
use crate::world::{failed, RunError};
use crate::xorshift::{range_drawn, seeded, words};

verus! {

/// What is left of a scenario, and the step on which an error was asked for before it.
pub struct Script {
    pub kind: ScenarioKind,
    pub left: u64,
    pub rng: XorShiftRng,
    pub asked: Option<u64>,
}

/// The step on which an error is injected in a scenario of the kind `kind`: where the
/// scenario is there to inject one, and none is asked for, its first write.
pub open spec fn inject_in(c: &Coordinator, kind: ScenarioKind) -> Option<u64> {
    if kind is Injection && c.cfg.inject is None {
        Some((c.steps + c.cfg.workers + 1) as u64)
    } else {
        c.cfg.inject
    }
}

/// The kind of the next round where a generator holds `words`, and the words afterwards.
pub open spec fn round_kind(kind: ScenarioKind, words: Seq<u32>) -> (ScenarioKind, Seq<u32>) {
    if kind is Random {
        let (n, after) = range_drawn(words, 0, 6);
        (drawn_kind(n), after)
    } else {
        (kind, words)
    }
}

impl Script {
    /// Whether no round of the scenario that a run is set to, of the kind `kind`, is over.
    pub open spec fn begun(&self, cfg: RunConfig, kind: ScenarioKind) -> bool {
        &&& self.kind == kind
        &&& self.left == rounds_of(kind, cfg.numops)
        &&& words(self.rng) == seeded(cfg.seed)
        &&& self.asked == cfg.inject
    }

    /// Begins the scenario that a run is set to.
    pub fn begin(c: &mut Coordinator) -> (r: Result<Self, RunError>)
        requires
            old(c).steps + old(c).cfg.workers + 1 <= u64::MAX,
        ensures
            match kind_named(old(c).cfg.scenario@) {
                Some(kind) => {
                    &&& r matches Ok(script)
                    &&& script.begun(old(c).cfg, kind)
                    &&& *final(c) == (Coordinator {
                        cfg: RunConfig { inject: inject_in(old(c), kind), ..old(c).cfg },
                        ..*old(c)
                    })
                },
                None => {
                    &&& r matches Err(e)
                    &&& e@ == failed(
                        "syscall-error"@,
                        "unknown scenario "@ + old(c).cfg.scenario@,
                    )
                    &&& *final(c) == *old(c)
                },
            },
    {
        let kind = match scenario_kind(c.cfg.scenario.as_str()) {
            Ok(kind) => kind,
            Err(e) => return Err(e),
        };
        let asked = c.cfg.inject;
        let rng = round_rng(c.cfg.seed);
        let left: u64 = rounds(kind, c.cfg.numops);
        match kind {
            ScenarioKind::Injection => {
                let step = c.injection_step();
                c.cfg.inject = step;
            },
            _ => {},
        }
        Ok(Script { kind, left, rng, asked })
    }

    /// The moves of the next round; none where the scenario is over.
    pub fn next_round(&mut self, cfg: &RunConfig) -> (r: Option<Vec<Move>>)
        requires
            cfg.wf(),
        ensures
            final(self).kind == old(self).kind,
            final(self).asked == old(self).asked,
            match r {
                Some(moves) => {
                    let (kind, after) = round_kind(old(self).kind, words(old(self).rng));
                    &&& old(self).left > 0
                    &&& final(self).left == old(self).left - 1
                    &&& words(final(self).rng) == after
                    &&& move_views(moves@) == moves_of(*cfg, kind)
                },
                None => old(self).left == 0 && *final(self) == *old(self),
            },
    {
        if self.left == 0 {
            return None;
        }
        self.left = self.left - 1;
        let kind = match self.kind {
            ScenarioKind::Random => next_kind(&mut self.rng),
            kind => kind,
        };
        Some(cfg.round(kind))
    }

    /// Ends the scenario: errors are injected again where they were asked for.
    pub fn end(self, c: &mut Coordinator)
        ensures
            *final(c) == (Coordinator {
                cfg: RunConfig { inject: self.asked, ..old(c).cfg },
                ..*old(c)
            }),
    {
        c.cfg.inject = self.asked;
    }
}

/// The kinds of the first `n` rounds, and the words of the generator after them.
pub open spec fn kinds_of(kind: ScenarioKind, words: Seq<u32>, n: nat) -> (
    Seq<ScenarioKind>,
    Seq<u32>,
)
    decreases n,
{
    if n == 0 {
        (Seq::empty(), words)
    } else {
        let (kinds, before) = kinds_of(kind, words, (n - 1) as nat);
        let (next, after) = round_kind(kind, before);
        (kinds.push(next), after)
    }
}

/// The rounds of a run follow from its seed: two runs of one scenario with the same seed go
/// through rounds of the same kinds, whatever else they are set to, and through equally many
/// where the same number is asked for. Each round is of the scenario's kind, or, in a random
/// run, of one of the six kinds that are drawn.
pub proof fn law_rounds_follow_the_seed(
    cfg_a: RunConfig,
    cfg_b: RunConfig,
    a: Script,
    b: Script,
    n: nat,
)
    requires
        cfg_a.scenario@ == cfg_b.scenario@,
        cfg_a.seed == cfg_b.seed,
        kind_named(cfg_a.scenario@) is Some,
        a.begun(cfg_a, kind_named(cfg_a.scenario@)->0),
        b.begun(cfg_b, kind_named(cfg_b.scenario@)->0),
    ensures
        ({
            let kinds = kinds_of(a.kind, words(a.rng), n).0;
            &&& kinds == kinds_of(b.kind, words(b.rng), n).0
            &&& kinds.len() == n
            &&& cfg_a.numops == cfg_b.numops ==> a.left == b.left
            &&& forall|i: int|
                0 <= i < n ==> (if a.kind is Random {
                    #[trigger] kinds[i] is SharedInode || kinds[i] is FdReuse || kinds[i] is Append
                        || kinds[i] is UnlinkRecreate || kinds[i] is StrongerRights
                        || kinds[i] is WordpressLike
                } else {
                    kinds[i] == a.kind
                })
        }),
{
    lemma_kinds(a.kind, words(a.rng), n);
}

proof fn lemma_kinds(kind: ScenarioKind, words: Seq<u32>, n: nat)
    ensures
        ({
            let kinds = kinds_of(kind, words, n).0;
            &&& kinds.len() == n
            &&& forall|i: int|
                0 <= i < n ==> (if kind is Random {
                    #[trigger] kinds[i] is SharedInode || kinds[i] is FdReuse || kinds[i] is Append
                        || kinds[i] is UnlinkRecreate || kinds[i] is StrongerRights
                        || kinds[i] is WordpressLike
                } else {
                    kinds[i] == kind
                })
        }),
    decreases n,
{
    if n > 0 {
        lemma_kinds(kind, words, (n - 1) as nat);
        let (kinds, before) = kinds_of(kind, words, (n - 1) as nat);
        let all = kinds_of(kind, words, n).0;
        assert(all =~= kinds.push(round_kind(kind, before).0));
        assert forall|i: int| 0 <= i < n implies (if kind is Random {
            #[trigger] all[i] is SharedInode || all[i] is FdReuse || all[i] is Append
                || all[i] is UnlinkRecreate || all[i] is StrongerRights || all[i] is WordpressLike
        } else {
            all[i] == kind
        }) by {
            if i < n - 1 {
                assert(all[i] == kinds[i]);
            }
        }
    }
}

} // verus!
