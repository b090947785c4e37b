//! The stage benchmark: with both clusters at their highest frequency, time
//! each component on short stretches of the graph, for every partition pair
//! whose second point lies at most four layers after the first.
use vstd::prelude::*;
use crate::consts::{big_frequencies, little_frequencies, spec_big_frequencies, spec_little_frequencies};
use crate::hardware::Component;
use crate::pipe_all::{PipeAllArgs, PipeAllResult};
use crate::strategies::StrategyContext;

verus! {

#[derive(Debug)]
pub struct PerformanceStageBenchmarkStrategy {}

/// One measurement of the stage benchmark.
#[derive(Debug)]
pub struct PerformanceStageBenchmarkResult {
    pub component: String,
    pub frequency: i32,
    pub stage: i32,
    pub partition_point1: i32,
    pub partition_point2: i32,
    pub result: PipeAllResult,
}

impl PerformanceStageBenchmarkResult {
    /// A measurement of the single layer after `partition`.
    pub fn new(component: String, frequency: i32, result: PipeAllResult, partition: i32, stage: i32) -> (r:
        PerformanceStageBenchmarkResult)
        requires
            partition < i32::MAX,
        ensures
            r.component == component,
            r.frequency == frequency,
            r.result == result,
            r.stage == stage,
            r.partition_point1 == partition,
            r.partition_point2 == partition + 1,
    {
        PerformanceStageBenchmarkResult {
            component,
            frequency,
            result,
            stage,
            partition_point1: partition,
            partition_point2: partition + 1,
        }
    }

    /// A measurement of the layers between `partition1` and `partition2`.
    pub fn new_wide(
        component: String,
        frequency: i32,
        result: PipeAllResult,
        partition1: i32,
        partition2: i32,
        stage: i32,
    ) -> (r: PerformanceStageBenchmarkResult)
        ensures
            r.component == component,
            r.frequency == frequency,
            r.result == result,
            r.stage == stage,
            r.partition_point1 == partition1,
            r.partition_point2 == partition2,
    {
        PerformanceStageBenchmarkResult {
            component,
            frequency,
            result,
            stage,
            partition_point1: partition1,
            partition_point2: partition2,
        }
    }
}

/// One run of the stage benchmark: the component measured, the frequency
/// recorded for it, the stage it runs as, the partition pair, and the run's
/// arguments.
#[derive(Debug)]
pub struct StageRun {
    pub component: Component,
    pub frequency: i32,
    pub stage: i32,
    pub partition1: i32,
    pub partition2: i32,
    pub args: PipeAllArgs,
}

/// The frame count of every run.
pub const STAGE_FRAMES: i32 = 60;

/// The bound (exclusive) of the second partition point after `p1`.
pub open spec fn far_point(partitions: int, p1: int) -> int {
    if p1 + 5 < partitions + 1 {
        p1 + 5
    } else {
        partitions + 1
    }
}

/// The partition pairs `(p1, p2)` with first point `p1`, in order.
pub open spec fn partition_row(partitions: int, p1: int) -> Seq<(i32, i32)> {
    Seq::new((far_point(partitions, p1) - p1 - 1) as nat, |k: int| (p1 as i32, (p1 + 1 + k) as i32))
}

/// The partition pairs whose first point is below `n`, in order.
pub open spec fn partition_pairs_upto(partitions: int, n: int) -> Seq<(i32, i32)>
    decreases n,
{
    if n <= 0 {
        Seq::empty()
    } else {
        partition_pairs_upto(partitions, n - 1) + partition_row(partitions, n - 1)
    }
}

/// Every partition pair of the benchmark, in order: first points from 0 up to
/// the number of partitions (exclusive), and for each the second points after
/// it, at most four layers on and at most the number of partitions.
pub open spec fn partition_pairs(partitions: i32) -> Seq<(i32, i32)> {
    partition_pairs_upto(partitions as int, partitions as int)
}

/// The component measured in round `t`, the order of its runs, and the order
/// of its runs from the first partition point 0.
pub open spec fn stage_round(t: int) -> (Component, Seq<char>, Seq<char>) {
    if t == 0 { (Component::Little, "G-L-B"@, "L-G-B"@) }
    else if t == 1 { (Component::Big, "G-B-L"@, "B-G-L"@) }
    else if t == 2 { (Component::Gpu, "B-G-L"@, "G-B-L"@) }
    else if t == 3 { (Component::Little, "B-L-G"@, "L-B-G"@) }
    else if t == 4 { (Component::Big, "L-B-G"@, "B-L-G"@) }
    else { (Component::Gpu, "L-G-B"@, "G-L-B"@) }
}

/// The number of rounds.
pub open spec fn stage_round_count() -> int {
    6
}

/// The frequency recorded for a component: the highest of its cluster, or 0
/// for the GPU.
pub open spec fn stage_frequency(c: Component) -> i32 {
    match c {
        Component::Little => spec_little_frequencies().last(),
        Component::Big => spec_big_frequencies().last(),
        Component::Gpu => 0,
    }
}

/// The rounds below `t`, each as the list of its (round, p1, p2) keys.
pub open spec fn stage_keys_upto(partitions: i32, t: int) -> Seq<(int, i32, i32)>
    decreases t,
{
    if t <= 0 {
        Seq::empty()
    } else {
        stage_keys_upto(partitions, t - 1) + partition_pairs(partitions).map_values(
            |pp: (i32, i32)| (t - 1, pp.0, pp.1),
        )
    }
}

/// The (round, p1, p2) key of every run of the benchmark, in order.
pub open spec fn stage_keys(partitions: i32) -> Seq<(int, i32, i32)> {
    stage_keys_upto(partitions, stage_round_count())
}

/// `r` is the run of round `t` for the partition pair `(p1, p2)` in `ctx`.
/// From the first partition point 0 the component runs as the first stage on
/// the layers up to `p2`; otherwise as the second stage on `[p1, p2)`.
pub open spec fn is_stage_run(r: StageRun, ctx: StrategyContext, t: int, p1: i32, p2: i32) -> bool {
    let (c, order, initial_order) = stage_round(t);
    &&& r.component == c
    &&& r.frequency == stage_frequency(c)
    &&& r.stage == if p1 == 0 { 1i32 } else { 2i32 }
    &&& r.partition1 == p1
    &&& r.partition2 == p2
    &&& r.args.graph == ctx.graph
    &&& r.args.n_frames == STAGE_FRAMES
    &&& r.args.partition_point1 == if p1 == 0 { p2 } else { p1 }
    &&& r.args.partition_point2 == if p1 == 0 { ctx.partitions } else { p2 }
    &&& r.args.order@ == if p1 == 0 { initial_order } else { order }
}

fn round(t: usize) -> (r: (Component, &'static str, &'static str))
    requires
        t < 6,
    ensures
        r.0 == stage_round(t as int).0,
        r.1@ == stage_round(t as int).1,
        r.2@ == stage_round(t as int).2,
{
    if t == 0 { (Component::Little, "G-L-B", "L-G-B") }
    else if t == 1 { (Component::Big, "G-B-L", "B-G-L") }
    else if t == 2 { (Component::Gpu, "B-G-L", "G-B-L") }
    else if t == 3 { (Component::Little, "B-L-G", "L-B-G") }
    else if t == 4 { (Component::Big, "L-B-G", "B-L-G") }
    else { (Component::Gpu, "L-G-B", "G-L-B") }
}

/// The partition pairs of the benchmark are exactly the pairs `(p1, p2)` with
/// `0 <= p1 < partitions` and `p1 < p2 <= min(p1 + 4, partitions)`: every
/// measured stretch is one to four layers long and lies within the graph.
pub proof fn lemma_partition_pairs_members(partitions: i32, p1: i32, p2: i32)
    ensures
        partition_pairs(partitions).contains((p1, p2)) <==> (0 <= p1 < partitions && p1 < p2
            <= partitions && p2 <= p1 + 4),
{
    lemma_pairs_upto_members(partitions as int, partitions as int, p1, p2);
}

proof fn lemma_pairs_upto_members(partitions: int, n: int, p1: i32, p2: i32)
    requires
        n <= partitions <= i32::MAX,
    ensures
        partition_pairs_upto(partitions, n).contains((p1, p2)) <==> (0 <= p1 < n && p1 < p2
            <= partitions && p2 <= p1 + 4),
    decreases n,
{
    if n > 0 {
        lemma_pairs_upto_members(partitions, n - 1, p1, p2);
        let before = partition_pairs_upto(partitions, n - 1);
        let row = partition_row(partitions, n - 1);
        assert(partition_pairs_upto(partitions, n) == before + row);
        if (0 <= p1 < n && p1 < p2 <= partitions && p2 <= p1 + 4) {
            if p1 < n - 1 {
                let k = before.index_of((p1, p2));
                assert((before + row)[k] == (p1, p2));
            } else {
                let k = p2 - p1 - 1;
                assert(row[k] == (p1, p2));
                assert((before + row)[before.len() + k] == (p1, p2));
            }
        }
        if partition_pairs_upto(partitions, n).contains((p1, p2)) {
            let k = choose|k: int| 0 <= k < (before + row).len() && (before + row)[k] == (p1, p2);
            if k >= before.len() {
                assert(row[k - before.len()] == (p1, p2));
            } else {
                assert(before[k] == (p1, p2));
            }
        }
    }
}

/// The number of partition pairs among the last `m` first points: a first
/// point `q` has `min(4, partitions - q)` second points.
pub open spec fn pairs_in_last(m: int) -> int {
    if m <= 0 {
        0
    } else if m == 1 {
        1
    } else if m == 2 {
        3
    } else {
        4 * m - 6
    }
}

proof fn lemma_pairs_upto_len(partitions: int, n: int)
    requires
        0 <= n <= partitions,
    ensures
        partition_pairs_upto(partitions, n).len() == pairs_in_last(partitions) - pairs_in_last(
            partitions - n,
        ),
    decreases n,
{
    if n > 0 {
        lemma_pairs_upto_len(partitions, n - 1);
    }
}

proof fn lemma_stage_keys_len(partitions: i32, t: int)
    requires
        t >= 0,
    ensures
        stage_keys_upto(partitions, t).len() == t * partition_pairs(partitions).len(),
    decreases t,
{
    if t > 0 {
        lemma_stage_keys_len(partitions, t - 1);
        let row = partition_pairs(partitions).map_values(|pp: (i32, i32)| (t - 1, pp.0, pp.1));
        assert(stage_keys_upto(partitions, t) == stage_keys_upto(partitions, t - 1) + row);
        assert(row.len() == partition_pairs(partitions).len());
        let n = partition_pairs(partitions).len() as int;
        assert((t - 1) * n + n == t * n) by (nonlinear_arith);
        assert(stage_keys_upto(partitions, t).len() == (t - 1) * n + n);
    } else {
        assert(stage_keys_upto(partitions, t).len() == 0);
        assert(t * partition_pairs(partitions).len() == 0) by (nonlinear_arith)
            requires t == 0;
    }
}

/// The number of partition pairs, hence of runs per round: four per first
/// point, less the pairs that would reach past the graph; and the benchmark
/// makes one run per round and pair.
pub proof fn lemma_partition_pairs_count(partitions: i32)
    ensures
        partition_pairs(partitions).len() == pairs_in_last(partitions as int),
        stage_keys(partitions).len() == stage_round_count() * partition_pairs(partitions).len(),
{
    if partitions > 0 {
        lemma_pairs_upto_len(partitions as int, partitions as int);
    }
    lemma_stage_keys_len(partitions, stage_round_count());
}

/// `r` is the run with key `key`: (round, p1, p2).
pub open spec fn is_keyed_run(r: StageRun, ctx: StrategyContext, key: (int, i32, i32)) -> bool {
    is_stage_run(r, ctx, key.0, key.1, key.2)
}

/// The partition pairs of the benchmark.
fn stage_pairs(partitions: i32) -> (pairs: Vec<(i32, i32)>)
    requires
        partitions <= i32::MAX - 4,
    ensures
        pairs@ == partition_pairs(partitions),
{
    let mut pairs: Vec<(i32, i32)> = Vec::new();
    let mut p1: i32 = 0;
    while p1 < partitions
        invariant
            partitions <= i32::MAX - 4,
            0 <= p1,
            p1 <= partitions || p1 == 0,
            pairs@ == partition_pairs_upto(partitions as int, p1 as int),
        decreases partitions - p1,
    {
        let mut far = partitions + 1;
        if p1 + 5 < far {
            far = p1 + 5;
        }
        let ghost before = pairs@;
        let mut p2 = p1 + 1;
        while p2 < far
            invariant
                0 <= p1 < partitions <= i32::MAX - 4,
                far == far_point(partitions as int, p1 as int),
                p1 + 1 <= p2 <= far,
                before == partition_pairs_upto(partitions as int, p1 as int),
                pairs@ == before + partition_row(partitions as int, p1 as int).take(p2 - p1 - 1),
            decreases far - p2,
        {
            pairs.push((p1, p2));
            proof {
                assert(pairs@ =~= before + partition_row(partitions as int, p1 as int).take(p2 - p1));
            }
            p2 = p2 + 1;
        }
        proof {
            assert(partition_row(partitions as int, p1 as int).take(far - p1 - 1)
                =~= partition_row(partitions as int, p1 as int));
        }
        p1 = p1 + 1;
    }
    proof {
        if partitions < 0 {
            assert(partition_pairs_upto(partitions as int, partitions as int) == Seq::<(i32, i32)>::empty());
        }
    }
    pairs
}

proof fn lemma_stage_keys_upto_members(partitions: i32, t: int, i: int)
    requires
        0 <= i < stage_keys_upto(partitions, t).len(),
    ensures
        0 <= stage_keys_upto(partitions, t)[i].0 < t,
        partition_pairs(partitions).contains(
            (stage_keys_upto(partitions, t)[i].1, stage_keys_upto(partitions, t)[i].2),
        ),
    decreases t,
{
    if t > 0 {
        let before = stage_keys_upto(partitions, t - 1);
        let pairs = partition_pairs(partitions);
        let row = pairs.map_values(|pp: (i32, i32)| (t - 1, pp.0, pp.1));
        assert(stage_keys_upto(partitions, t) == before + row);
        if i < before.len() {
            lemma_stage_keys_upto_members(partitions, t - 1, i);
        } else {
            let j = i - before.len();
            assert(row[j] == (t - 1, pairs[j].0, pairs[j].1));
            assert(pairs.contains(pairs[j]));
        }
    }
}

/// Every run of the stage benchmark measures a stretch of one to four layers
/// within the graph. A run from the first partition point 0 runs the
/// component as the first stage up to its second point, with the rest of the
/// graph after it; every other run runs it as the second stage on exactly
/// its recorded pair of points.
pub proof fn lemma_stage_runs_measure_their_pair(ctx: StrategyContext, r: StageRun, i: int)
    requires
        0 <= i < stage_keys(ctx.partitions).len(),
        is_keyed_run(r, ctx, stage_keys(ctx.partitions)[i]),
    ensures
        0 <= r.partition1 < r.partition2 <= ctx.partitions,
        r.partition2 - r.partition1 <= 4,
        r.args.n_frames == STAGE_FRAMES,
        r.partition1 != 0 ==> r.stage == 2 && r.args.partition_point1 == r.partition1
            && r.args.partition_point2 == r.partition2,
        r.partition1 == 0 ==> r.stage == 1 && r.args.partition_point1 == r.partition2
            && r.args.partition_point2 == ctx.partitions,
{
    let key = stage_keys(ctx.partitions)[i];
    lemma_stage_keys_upto_members(ctx.partitions, stage_round_count(), i);
    lemma_partition_pairs_members(ctx.partitions, key.1, key.2);
}

impl PerformanceStageBenchmarkStrategy {
    pub fn new() -> PerformanceStageBenchmarkStrategy {
        PerformanceStageBenchmarkStrategy {}
    }

    /// The frequencies both clusters are set to before the runs: the highest
    /// of the little and of the big cluster.
    pub fn frequencies(&self) -> (f: (i32, i32))
        ensures
            f.0 == spec_little_frequencies().last(),
            f.1 == spec_big_frequencies().last(),
    {
        let little = little_frequencies();
        let big = big_frequencies();
        (little[little.len() - 1], big[big.len() - 1])
    }

    /// The runs of the benchmark, in order: six rounds, each over every
    /// partition pair. Each run's measurement is recorded under the
    /// component's name, the run's frequency, partition pair and stage.
    pub fn plan(&self, ctx: &StrategyContext) -> (runs: Vec<StageRun>)
        requires
            ctx.partitions <= i32::MAX - 4,
        ensures
            runs.len() == stage_keys(ctx.partitions).len(),
            forall|i: int|
                #![trigger runs@[i]]
                0 <= i < runs.len() ==> is_keyed_run(runs@[i], *ctx, stage_keys(ctx.partitions)[i]),
    {
        let (little_top, big_top) = self.frequencies();
        let pairs = stage_pairs(ctx.partitions);
        let mut runs: Vec<StageRun> = Vec::new();
        let mut t: usize = 0;
        while t < 6
            invariant
                t <= 6,
                little_top == spec_little_frequencies().last(),
                big_top == spec_big_frequencies().last(),
                pairs@ == partition_pairs(ctx.partitions),
                runs.len() == stage_keys_upto(ctx.partitions, t as int).len(),
                forall|i: int|
                    #![trigger runs@[i]]
                    0 <= i < runs.len() ==> is_keyed_run(runs@[i], *ctx, stage_keys_upto(ctx.partitions, t as int)[i]),
            decreases 6 - t,
        {
            let (component, order, initial_order) = round(t);
            let frequency = match component {
                Component::Little => little_top,
                Component::Big => big_top,
                Component::Gpu => 0,
            };
            let ghost done = stage_keys_upto(ctx.partitions, t as int);
            let ghost row = partition_pairs(ctx.partitions).map_values(
                |pp: (i32, i32)| (t as int, pp.0, pp.1),
            );
            assert(stage_keys_upto(ctx.partitions, t + 1) == done + row);
            let mut k: usize = 0;
            while k < pairs.len()
                invariant
                    t < 6,
                    k <= pairs.len(),
                    component == stage_round(t as int).0,
                    order@ == stage_round(t as int).1,
                    initial_order@ == stage_round(t as int).2,
                    frequency == stage_frequency(component),
                    pairs@ == partition_pairs(ctx.partitions),
                    row == partition_pairs(ctx.partitions).map_values(
                        |pp: (i32, i32)| (t as int, pp.0, pp.1),
                    ),
                    runs.len() == done.len() + k,
                    forall|i: int|
                        #![trigger runs@[i]]
                        0 <= i < runs.len() ==> is_keyed_run(runs@[i], *ctx, (done + row)[i]),
                decreases pairs.len() - k,
            {
                let (p1, p2) = pairs[k];
                let first = p1 == 0;
                let args = PipeAllArgs {
                    graph: ctx.graph.clone(),
                    n_frames: STAGE_FRAMES,
                    partition_point1: if first { p2 } else { p1 },
                    partition_point2: if first { ctx.partitions } else { p2 },
                    order: if first { initial_order.to_owned() } else { order.to_owned() },
                };
                runs.push(StageRun {
                    component,
                    frequency,
                    stage: if first { 1 } else { 2 },
                    partition1: p1,
                    partition2: p2,
                    args,
                });
                assert((done + row)[done.len() + k] == (t as int, p1, p2));
                k = k + 1;
            }
            t = t + 1;
        }
        runs
    }
}

} // verus!
