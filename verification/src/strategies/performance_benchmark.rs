//! The frequency benchmark: for several frame counts, run the whole graph on
//! the little cluster at each sampled frequency, then on the big cluster at
//! each sampled frequency, then on the GPU.
use vstd::prelude::*;
use crate::consts::{big_freq_interp, little_freq_interp, spec_big_freq_interp, spec_little_freq_interp};
use crate::hardware::Component;
use crate::pipe_all::{PipeAllArgs, PipeAllResult};
use crate::strategies::StrategyContext;

verus! {

#[derive(Debug)]
pub struct PerformanceBenchmarkStrategy {}

/// One measurement of the frequency benchmark.
#[derive(Debug)]
pub struct PerformanceBenchmarkResult {
    pub component: String,
    pub frequency: i32,
    pub n_frames: i32,
    pub result: PipeAllResult,
}

impl PerformanceBenchmarkResult {
    pub fn new(component: String, frequency: i32, n_frames: i32, result: PipeAllResult) -> (r: PerformanceBenchmarkResult)
        ensures
            r.component == component,
            r.frequency == frequency,
            r.n_frames == n_frames,
            r.result == result,
    {
        PerformanceBenchmarkResult { component, frequency, n_frames, result }
    }
}

/// One run of the benchmark: the cluster whose frequency is set first (none
/// for the GPU), the frequency that is set and recorded (0 for the GPU), and
/// the run's arguments.
#[derive(Debug)]
pub struct BenchmarkRun {
    pub component: Component,
    pub frequency: i32,
    pub args: PipeAllArgs,
}

/// The frame counts the benchmark runs with.
pub open spec fn benchmark_frame_counts() -> Seq<i32> {
    seq![10, 15, 25, 40, 60, 90]
}

/// The runs for each frame count: one per sampled little frequency, one per
/// sampled big frequency, one on the GPU.
pub open spec fn runs_per_frame_count() -> int {
    (spec_little_freq_interp().len() + spec_big_freq_interp().len() + 1) as int
}

/// `r` is run number `i` of the benchmark in `ctx`.
pub open spec fn is_benchmark_run(r: BenchmarkRun, ctx: StrategyContext, i: int) -> bool {
    let block = i / runs_per_frame_count();
    let j = i % runs_per_frame_count();
    let nl = spec_little_freq_interp().len() as int;
    let nb = spec_big_freq_interp().len() as int;
    &&& r.args.graph == ctx.graph
    &&& r.args.n_frames == benchmark_frame_counts()[block]
    &&& r.args.partition_point1 == ctx.partitions
    &&& r.args.partition_point2 == ctx.partitions
    &&& if j < nl {
        &&& r.component == Component::Little
        &&& r.frequency == spec_little_freq_interp()[j]
        &&& r.args.order@ == "L-B-G"@
    } else if j < nl + nb {
        &&& r.component == Component::Big
        &&& r.frequency == spec_big_freq_interp()[j - nl]
        &&& r.args.order@ == "B-L-G"@
    } else {
        &&& r.component == Component::Gpu
        &&& r.frequency == 0
        &&& r.args.order@ == "G-B-L"@
    }
}

proof fn lemma_run_position(b: int, j: int)
    requires
        0 <= j < runs_per_frame_count(),
    ensures
        (b * 10 + j) / runs_per_frame_count() == b,
        (b * 10 + j) % runs_per_frame_count() == j,
{
    assert(runs_per_frame_count() == 10);
    vstd::arithmetic::div_mod::lemma_fundamental_div_mod_converse(b * 10 + j, 10, b, j);
}

/// The benchmark comes in one block of ten runs per frame count, in the
/// order 10, 15, 25, 40, 60, 90: in each block the little cluster at each of
/// its four sampled frequencies, lowest first, then the big cluster at each
/// of its five, then the GPU; every run takes the whole graph in one stage.
pub proof fn lemma_benchmark_blocks(r: BenchmarkRun, ctx: StrategyContext, b: int, j: int)
    requires
        0 <= b < 6,
        0 <= j < 10,
        is_benchmark_run(r, ctx, b * 10 + j),
    ensures
        r.args.n_frames == seq![10i32, 15, 25, 40, 60, 90][b],
        r.args.graph == ctx.graph,
        r.args.partition_point1 == ctx.partitions,
        r.args.partition_point2 == ctx.partitions,
        j < 4 ==> r.component == Component::Little && r.args.order@ == "L-B-G"@ && r.frequency
            == seq![500000i32, 1000000, 1398000, 1800000][j],
        4 <= j < 9 ==> r.component == Component::Big && r.args.order@ == "B-L-G"@ && r.frequency
            == seq![500000i32, 1000000, 1512000, 2016000, 2208000][j - 4],
        j == 9 ==> r.component == Component::Gpu && r.args.order@ == "G-B-L"@ && r.frequency == 0,
{
    lemma_run_position(b, j);
}

fn run_args(ctx: &StrategyContext, n_frames: i32, order: &str) -> (args: PipeAllArgs)
    ensures
        args.graph == ctx.graph,
        args.n_frames == n_frames,
        args.partition_point1 == ctx.partitions,
        args.partition_point2 == ctx.partitions,
        args.order@ == order@,
{
    PipeAllArgs {
        graph: ctx.graph.clone(),
        n_frames,
        partition_point1: ctx.partitions,
        partition_point2: ctx.partitions,
        order: order.to_owned(),
    }
}

impl PerformanceBenchmarkStrategy {
    pub fn new() -> PerformanceBenchmarkStrategy {
        PerformanceBenchmarkStrategy {}
    }

    /// The runs of the benchmark, in order. Each run's measurement is recorded
    /// under the component's initial, the run's frequency and frame count.
    pub fn plan(&self, ctx: &StrategyContext) -> (runs: Vec<BenchmarkRun>)
        ensures
            runs.len() == benchmark_frame_counts().len() * runs_per_frame_count(),
            forall|i: int| 0 <= i < runs.len() ==> is_benchmark_run(#[trigger] runs@[i], *ctx, i),
    {
        let counts: Vec<i32> = vec![10, 15, 25, 40, 60, 90];
        assert(counts@ =~= benchmark_frame_counts());
        let little = little_freq_interp();
        let big = big_freq_interp();
        let mut runs: Vec<BenchmarkRun> = Vec::new();
        for b in 0..counts.len()
            invariant
                counts@ == benchmark_frame_counts(),
                little@ == spec_little_freq_interp(),
                big@ == spec_big_freq_interp(),
                runs.len() == b * 10,
                forall|i: int| 0 <= i < runs.len() ==> is_benchmark_run(#[trigger] runs@[i], *ctx, i),
        {
            let n_frames = counts[b];
            for j in 0..little.len()
                invariant
                    b < counts.len(),
                    n_frames == benchmark_frame_counts()[b as int],
                    little@ == spec_little_freq_interp(),
                    runs.len() == b * 10 + j,
                    forall|i: int| 0 <= i < runs.len() ==> is_benchmark_run(#[trigger] runs@[i], *ctx, i),
            {
                runs.push(BenchmarkRun {
                    component: Component::Little,
                    frequency: little[j],
                    args: run_args(ctx, n_frames, "L-B-G"),
                });
                proof {
                    lemma_run_position(b as int, j as int);
                }
                assert(is_benchmark_run(runs@[b * 10 + j], *ctx, b * 10 + j));
            }
            for j in 0..big.len()
                invariant
                    b < counts.len(),
                    n_frames == benchmark_frame_counts()[b as int],
                    big@ == spec_big_freq_interp(),
                    runs.len() == b * 10 + 4 + j,
                    forall|i: int| 0 <= i < runs.len() ==> is_benchmark_run(#[trigger] runs@[i], *ctx, i),
            {
                runs.push(BenchmarkRun {
                    component: Component::Big,
                    frequency: big[j],
                    args: run_args(ctx, n_frames, "B-L-G"),
                });
                proof {
                    lemma_run_position(b as int, 4 + j as int);
                }
                assert(is_benchmark_run(runs@[b * 10 + 4 + j], *ctx, b * 10 + 4 + j));
            }
            runs.push(BenchmarkRun {
                component: Component::Gpu,
                frequency: 0,
                args: run_args(ctx, n_frames, "G-B-L"),
            });
            proof {
                lemma_run_position(b as int, 9);
            }
            assert(is_benchmark_run(runs@[b * 10 + 9], *ctx, b * 10 + 9));
        }
        runs
    }
}

} // verus!
