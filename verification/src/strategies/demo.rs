//! The demo strategy: raise the little cluster's frequency, then the big
//! cluster's, then move layers to the GPU stage, until a run meets both
//! targets or nothing is left to try.
//!
//! The search alternates runs of the pipeline with decisions. The decisions
//! live here as a step function from the search state and the outcome of a
//! run to the next state and the action to perform.
use vstd::prelude::*;
use crate::consts::{big_frequencies, little_frequencies, spec_big_frequencies, spec_little_frequencies};
use crate::pipe_all::PipeAllArgs;
use crate::strategies::StrategyContext;

verus! {

/// The demo strategy, with the order in which its pipeline places the stages.
pub struct DemoStrategy {
    order: String,
}

/// Where the search stands: an index into each frequency table, and the two
/// partition points of the next run.
#[derive(Debug, Clone, Copy, PartialEq, Eq, Structural)]
pub struct DemoState {
    pub little_level: usize,
    pub big_level: usize,
    pub partition_point1: i32,
    pub partition_point2: i32,
}

/// What a run showed: whether it met both the frame-rate and the latency
/// target, and whether its first stage's inference took less time than its
/// third stage's.
#[derive(Debug, Clone, Copy, PartialEq, Eq, Structural)]
pub struct RunOutcome {
    pub meets_targets: bool,
    pub stage_one_faster: bool,
}

/// What to do after a run.
#[derive(Debug, Clone, Copy, PartialEq, Eq, Structural)]
pub enum DemoAction {
    /// The run met the targets: it is the result.
    Accept,
    /// Set the little cluster to this frequency and run again.
    SetLittleFrequency(i32),
    /// Set the big cluster to this frequency and run again.
    SetBigFrequency(i32),
    /// Run again with the new partition points.
    Repartition,
    /// Nothing is left to try: there is no result.
    GiveUp,
}

/// The number of frames of each run.
pub const DEMO_FRAMES: i32 = 10;

/// `p / 2`, rounded towards zero as Rust's integer division does.
pub open spec fn half(p: int) -> int {
    if p >= 0 { p / 2 } else { -((-p) / 2) }
}

/// Halving rounds towards zero: `2 * half(p)` is `p` or one step closer to
/// zero, and has the sign of `p`.
pub proof fn lemma_half_rounds_towards_zero(p: int)
    ensures
        p >= 0 ==> 0 <= p - 2 * half(p) <= 1,
        p < 0 ==> 0 <= 2 * half(p) - p <= 1,
{
}

impl DemoState {
    /// The levels index the frequency tables.
    pub open spec fn wf(self) -> bool {
        &&& self.little_level < spec_little_frequencies().len()
        &&& self.big_level < spec_big_frequencies().len()
    }
}

/// The state in which the search starts: lowest frequencies, both partition
/// points in the middle of the graph.
pub open spec fn demo_start(partitions: i32) -> DemoState {
    DemoState {
        little_level: 0,
        big_level: 0,
        partition_point1: half(partitions as int) as i32,
        partition_point2: half(partitions as int) as i32,
    }
}

/// The decision after a run with outcome `o` in state `s`.
pub open spec fn demo_step(s: DemoState, partitions: i32, o: RunOutcome) -> (DemoState, DemoAction) {
    if o.meets_targets {
        (s, DemoAction::Accept)
    } else if s.little_level + 1 < spec_little_frequencies().len() {
        let level = (s.little_level + 1) as usize;
        (DemoState { little_level: level, ..s },
            DemoAction::SetLittleFrequency(spec_little_frequencies()[level as int]))
    } else if s.big_level + 1 < spec_big_frequencies().len() {
        let level = (s.big_level + 1) as usize;
        (DemoState { big_level: level, ..s },
            DemoAction::SetBigFrequency(spec_big_frequencies()[level as int]))
    } else if o.stage_one_faster {
        if s.partition_point2 < partitions {
            (DemoState { partition_point2: (s.partition_point2 + 1) as i32, ..s }, DemoAction::Repartition)
        } else {
            (s, DemoAction::GiveUp)
        }
    } else {
        if s.partition_point1 > 1 {
            (DemoState { partition_point1: (s.partition_point1 - 1) as i32, ..s }, DemoAction::Repartition)
        } else {
            (s, DemoAction::GiveUp)
        }
    }
}

/// Whether `a` runs the pipeline again.
pub open spec fn is_retry(a: DemoAction) -> bool {
    match a {
        DemoAction::SetLittleFrequency(_) => true,
        DemoAction::SetBigFrequency(_) => true,
        DemoAction::Repartition => true,
        _ => false,
    }
}

/// How many more retries the search has left from `s`: frequency steps still
/// open on each cluster, and partition-point moves still open in each
/// direction.
pub open spec fn demo_budget(s: DemoState, partitions: i32) -> int {
    (spec_little_frequencies().len() - 1 - s.little_level) + (spec_big_frequencies().len() - 1
        - s.big_level) + (if s.partition_point2 < partitions {
        partitions - s.partition_point2
    } else {
        0
    }) + (if s.partition_point1 > 1 {
        s.partition_point1 - 1
    } else {
        0
    })
}

/// The outcomes `outs`, fed one after the other to the search from `s`, each
/// lead to a retry.
pub open spec fn all_retry(s: DemoState, partitions: i32, outs: Seq<RunOutcome>) -> bool
    decreases outs.len(),
{
    if outs.len() == 0 {
        true
    } else {
        let r = demo_step(s, partitions, outs[0]);
        is_retry(r.1) && all_retry(r.0, partitions, outs.drop_first())
    }
}

/// Each retry uses up exactly one unit of the budget, which never falls
/// below zero; a decision that ends the search leaves the state as it was.
pub proof fn lemma_demo_step_uses_budget(s: DemoState, partitions: i32, o: RunOutcome)
    requires
        s.wf(),
    ensures
        demo_budget(s, partitions) >= 0,
        demo_step(s, partitions, o).0.wf(),
        is_retry(demo_step(s, partitions, o).1) ==> demo_budget(demo_step(s, partitions, o).0, partitions)
            + 1 == demo_budget(s, partitions),
        !is_retry(demo_step(s, partitions, o).1) ==> demo_step(s, partitions, o).0 == s,
{
}

/// The search ends: from any well-formed state, a run of consecutive retries
/// is no longer than the budget, so the pipeline runs at most
/// `demo_budget(s) + 1` times.
pub proof fn lemma_demo_search_is_bounded(s: DemoState, partitions: i32, outs: Seq<RunOutcome>)
    requires
        s.wf(),
        all_retry(s, partitions, outs),
    ensures
        outs.len() <= demo_budget(s, partitions),
    decreases outs.len(),
{
    if outs.len() > 0 {
        lemma_demo_step_uses_budget(s, partitions, outs[0]);
        let r = demo_step(s, partitions, outs[0]);
        lemma_demo_search_is_bounded(r.0, partitions, outs.drop_first());
    }
}

/// The search raises the little cluster first, then the big cluster, and
/// moves partition points only once both run at their highest frequency.
/// Frequencies never go down, the first partition point never grows and the
/// second never shrinks.
pub proof fn lemma_demo_search_order(s: DemoState, partitions: i32, o: RunOutcome)
    requires
        s.wf(),
    ensures
        ({
            let (n, a) = demo_step(s, partitions, o);
            &&& n.little_level >= s.little_level
            &&& n.big_level >= s.big_level
            &&& n.partition_point1 <= s.partition_point1
            &&& n.partition_point2 >= s.partition_point2
            &&& a is SetLittleFrequency ==> n.little_level == s.little_level + 1
                && a->SetLittleFrequency_0 == spec_little_frequencies()[n.little_level as int]
            &&& a is SetBigFrequency ==> s.little_level == spec_little_frequencies().len() - 1
                && n.big_level == s.big_level + 1
                && a->SetBigFrequency_0 == spec_big_frequencies()[n.big_level as int]
            &&& a is Repartition ==> s.little_level == spec_little_frequencies().len() - 1
                && s.big_level == spec_big_frequencies().len() - 1
        }),
{
}

/// A run is accepted exactly when it meets both targets; the search gives up
/// only when both clusters are at their highest frequency and the partition
/// point it would move is at its limit.
pub proof fn lemma_demo_accept_and_give_up(s: DemoState, partitions: i32, o: RunOutcome)
    requires
        s.wf(),
    ensures
        (demo_step(s, partitions, o).1 == DemoAction::Accept) == o.meets_targets,
        demo_step(s, partitions, o).1 == DemoAction::GiveUp ==> {
            &&& !o.meets_targets
            &&& s.little_level == spec_little_frequencies().len() - 1
            &&& s.big_level == spec_big_frequencies().len() - 1
            &&& o.stage_one_faster ==> s.partition_point2 >= partitions
            &&& !o.stage_one_faster ==> s.partition_point1 <= 1
        },
{
}

/// Once both clusters run at their highest frequency, a failed run whose
/// first stage was faster than its third moves one layer from the third
/// stage to the middle one (the second point goes up by one, the first stays),
/// while the second point is below the number of partitions; a failed run
/// whose first stage was not faster moves one layer from the first stage to
/// the middle one (the first point goes down by one, the second stays), while
/// the first point is above 1. Frequency levels stay as they are.
pub proof fn lemma_demo_repartition(s: DemoState, partitions: i32, o: RunOutcome)
    requires
        s.wf(),
        !o.meets_targets,
        s.little_level == spec_little_frequencies().len() - 1,
        s.big_level == spec_big_frequencies().len() - 1,
    ensures
        ({
            let (n, a) = demo_step(s, partitions, o);
            &&& n.little_level == s.little_level
            &&& n.big_level == s.big_level
            &&& o.stage_one_faster && s.partition_point2 < partitions ==> a == DemoAction::Repartition
                && n.partition_point2 == s.partition_point2 + 1 && n.partition_point1
                == s.partition_point1
            &&& !o.stage_one_faster && s.partition_point1 > 1 ==> a == DemoAction::Repartition
                && n.partition_point1 == s.partition_point1 - 1 && n.partition_point2
                == s.partition_point2
        }),
{
}

impl DemoStrategy {
    pub fn new(order: String) -> (d: DemoStrategy)
        ensures
            d.order() == order,
    {
        DemoStrategy { order }
    }

    pub fn default() -> (d: DemoStrategy)
        ensures
            d.order()@ == "L-G-B"@,
    {
        DemoStrategy { order: "L-G-B".to_owned() }
    }

    pub closed spec fn order(&self) -> String {
        self.order
    }

    /// The first state of the search: both frequency levels at the first
    /// entry of their table, both partition points at half the partitions.
    /// The caller applies the levels' frequencies to the clusters before the
    /// first run.
    pub fn start(&self, ctx: &StrategyContext) -> (s: DemoState)
        ensures
            s == demo_start(ctx.partitions),
            s.wf(),
    {
        let p = ctx.partitions;
        let h = p / 2;
        DemoState { little_level: 0, big_level: 0, partition_point1: h, partition_point2: h }
    }

    /// The arguments of the run in state `s`.
    pub fn run_args(&self, ctx: &StrategyContext, s: &DemoState) -> (args: PipeAllArgs)
        ensures
            args.graph == ctx.graph,
            args.n_frames == DEMO_FRAMES,
            args.partition_point1 == s.partition_point1,
            args.partition_point2 == s.partition_point2,
            args.order == self.order(),
    {
        PipeAllArgs {
            graph: ctx.graph.clone(),
            n_frames: DEMO_FRAMES,
            partition_point1: s.partition_point1,
            partition_point2: s.partition_point2,
            order: self.order.clone(),
        }
    }

    /// The decision after a run in state `s` whose outcome was `o`.
    pub fn step(&self, ctx: &StrategyContext, s: &DemoState, o: RunOutcome) -> (r: (DemoState, DemoAction))
        requires
            s.wf(),
        ensures
            r == demo_step(*s, ctx.partitions, o),
            r.0.wf(),
    {
        if o.meets_targets {
            return (*s, DemoAction::Accept);
        }
        let little = little_frequencies();
        let big = big_frequencies();
        if s.little_level < little.len() - 1 {
            let level = s.little_level + 1;
            (DemoState { little_level: level, ..*s }, DemoAction::SetLittleFrequency(little[level]))
        } else if s.big_level < big.len() - 1 {
            let level = s.big_level + 1;
            (DemoState { big_level: level, ..*s }, DemoAction::SetBigFrequency(big[level]))
        } else if o.stage_one_faster {
            if s.partition_point2 < ctx.partitions {
                (DemoState { partition_point2: s.partition_point2 + 1, ..*s }, DemoAction::Repartition)
            } else {
                (*s, DemoAction::GiveUp)
            }
        } else {
            if s.partition_point1 > 1 {
                (DemoState { partition_point1: s.partition_point1 - 1, ..*s }, DemoAction::Repartition)
            } else {
                (*s, DemoAction::GiveUp)
            }
        }
    }
}

} // verus!
