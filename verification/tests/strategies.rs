use pipe_governor::consts::{big_frequencies, little_frequencies};
use pipe_governor::hardware::{Component, Cores, Hardware};
use pipe_governor::pipe_all::{PipeAll, PipeAllResult};
use pipe_governor::strategies::demo::{DemoAction, DemoStrategy, RunOutcome};
use pipe_governor::strategies::performance_benchmark::{
    PerformanceBenchmarkResult, PerformanceBenchmarkStrategy,
};
use pipe_governor::strategies::performance_stage_benchmark::{
    PerformanceStageBenchmarkResult, PerformanceStageBenchmarkStrategy,
};
use pipe_governor::strategies::{get_strategy_by_name, StrategyContext, StrategyKind, StrategyResult};

fn context(partitions: i32) -> StrategyContext {
    StrategyContext {
        graph: "graph_mobilenet".to_string(),
        partitions,
        target_fps: 10,
        target_latency: 300,
        pipe_all: PipeAll::new(),
        hardware: Hardware::new(
            Cores::new("Little".to_string(), 0),
            Cores::new("Big".to_string(), 2),
        ),
    }
}

const FAIL_FIRST_FASTER: RunOutcome = RunOutcome { meets_targets: false, stage_one_faster: true };
const FAIL_THIRD_FASTER: RunOutcome = RunOutcome { meets_targets: false, stage_one_faster: false };

#[test]
fn strategy_names() {
    assert_eq!(get_strategy_by_name("demo"), Some(StrategyKind::Demo));
    assert_eq!(get_strategy_by_name("perf"), Some(StrategyKind::Perf));
    assert_eq!(get_strategy_by_name("perf-stage"), Some(StrategyKind::PerfStage));
    assert_eq!(get_strategy_by_name("perf-basic"), Some(StrategyKind::PerfBasic));
    assert_eq!(get_strategy_by_name("Demo"), None);
    assert_eq!(get_strategy_by_name(""), None);
}

#[test]
fn demo_default_order_and_first_run() {
    let ctx = context(28);
    let d = DemoStrategy::default();
    let s = d.start(&ctx);
    assert_eq!(s.little_level, 0);
    assert_eq!(s.big_level, 0);
    assert_eq!(s.partition_point1, 14);
    assert_eq!(s.partition_point2, 14);
    let args = d.run_args(&ctx, &s);
    assert_eq!(args.graph, "graph_mobilenet");
    assert_eq!(args.n_frames, 10);
    assert_eq!(args.order, "L-G-B");
    let custom = DemoStrategy::new("B-G-L".to_string());
    assert_eq!(custom.run_args(&ctx, &s).order, "B-G-L");
}

#[test]
fn demo_start_halves_towards_zero() {
    assert_eq!(DemoStrategy::default().start(&context(7)).partition_point1, 3);
    assert_eq!(DemoStrategy::default().start(&context(-7)).partition_point2, -3);
    assert_eq!(DemoStrategy::default().start(&context(1)).partition_point1, 0);
}

#[test]
fn demo_accepts_a_run_that_meets_targets() {
    let ctx = context(28);
    let d = DemoStrategy::default();
    let s = d.start(&ctx);
    let (n, a) = d.step(&ctx, &s, RunOutcome { meets_targets: true, stage_one_faster: false });
    assert_eq!(a, DemoAction::Accept);
    assert_eq!(n, s);
}

#[test]
fn demo_raises_little_then_big() {
    let ctx = context(28);
    let d = DemoStrategy::default();
    let little = little_frequencies();
    let big = big_frequencies();
    let mut s = d.start(&ctx);
    for level in 1..little.len() {
        let (n, a) = d.step(&ctx, &s, FAIL_FIRST_FASTER);
        assert_eq!(a, DemoAction::SetLittleFrequency(little[level]));
        assert_eq!(n.little_level, level);
        s = n;
    }
    for level in 1..big.len() {
        let (n, a) = d.step(&ctx, &s, FAIL_THIRD_FASTER);
        assert_eq!(a, DemoAction::SetBigFrequency(big[level]));
        assert_eq!(n.big_level, level);
        assert_eq!(n.little_level, little.len() - 1);
        s = n;
    }
    let (n, a) = d.step(&ctx, &s, FAIL_FIRST_FASTER);
    assert_eq!(a, DemoAction::Repartition);
    assert_eq!(n.partition_point2, 15);
    assert_eq!(n.partition_point1, 14);
    let (n2, a2) = d.step(&ctx, &n, FAIL_THIRD_FASTER);
    assert_eq!(a2, DemoAction::Repartition);
    assert_eq!(n2.partition_point1, 13);
    assert_eq!(n2.partition_point2, 15);
}

fn runs_until_end(partitions: i32, outcome: RunOutcome) -> (usize, DemoAction) {
    let ctx = context(partitions);
    let d = DemoStrategy::default();
    let mut s = d.start(&ctx);
    let mut runs = 0;
    loop {
        runs += 1;
        let (n, a) = d.step(&ctx, &s, outcome);
        match a {
            DemoAction::Accept | DemoAction::GiveUp => return (runs, a),
            _ => s = n,
        }
        assert!(runs < 10_000);
    }
}

#[test]
fn demo_gives_up_after_exhausting_everything() {
    // 1 first run, 7 little raises, 12 big raises, 14 moves of the second point.
    assert_eq!(runs_until_end(28, FAIL_FIRST_FASTER), (34, DemoAction::GiveUp));
    // 13 moves of the first point, from 14 down to 1.
    assert_eq!(runs_until_end(28, FAIL_THIRD_FASTER), (33, DemoAction::GiveUp));
    assert_eq!(runs_until_end(1, FAIL_THIRD_FASTER), (20, DemoAction::GiveUp));
    assert_eq!(runs_until_end(0, FAIL_FIRST_FASTER), (20, DemoAction::GiveUp));
}

#[test]
fn perf_plan_runs() {
    let ctx = context(28);
    let plan = PerformanceBenchmarkStrategy::new().plan(&ctx);
    assert_eq!(plan.len(), 60);
    let counts = [10, 15, 25, 40, 60, 90];
    for (b, n) in counts.iter().enumerate() {
        let block = &plan[b * 10..(b + 1) * 10];
        for r in block {
            assert_eq!(r.args.n_frames, *n);
            assert_eq!(r.args.partition_point1, 28);
            assert_eq!(r.args.partition_point2, 28);
            assert_eq!(r.args.graph, "graph_mobilenet");
        }
        let little: Vec<i32> = block[..4].iter().map(|r| r.frequency).collect();
        assert_eq!(little, vec![500000, 1000000, 1398000, 1800000]);
        assert!(block[..4].iter().all(|r| r.component == Component::Little && r.args.order == "L-B-G"));
        let big: Vec<i32> = block[4..9].iter().map(|r| r.frequency).collect();
        assert_eq!(big, vec![500000, 1000000, 1512000, 2016000, 2208000]);
        assert!(block[4..9].iter().all(|r| r.component == Component::Big && r.args.order == "B-L-G"));
        assert_eq!(block[9].component, Component::Gpu);
        assert_eq!(block[9].frequency, 0);
        assert_eq!(block[9].args.order, "G-B-L");
    }
}

#[test]
fn stage_plan_pairs() {
    let ctx = context(6);
    let s = PerformanceStageBenchmarkStrategy::new();
    assert_eq!(s.frequencies(), (1800000, 2208000));
    let plan = s.plan(&ctx);
    let mut pairs = Vec::new();
    for p1 in 0..6 {
        for p2 in (p1 + 1)..std::cmp::min(7, p1 + 5) {
            pairs.push((p1, p2));
        }
    }
    assert_eq!(pairs.len(), 4 + 4 + 4 + 3 + 2 + 1);
    assert_eq!(plan.len(), 6 * pairs.len());
    let rounds = [
        (Component::Little, "G-L-B", "L-G-B", 1800000),
        (Component::Big, "G-B-L", "B-G-L", 2208000),
        (Component::Gpu, "B-G-L", "G-B-L", 0),
        (Component::Little, "B-L-G", "L-B-G", 1800000),
        (Component::Big, "L-B-G", "B-L-G", 2208000),
        (Component::Gpu, "L-G-B", "G-L-B", 0),
    ];
    for (i, r) in plan.iter().enumerate() {
        let (c, order, initial, freq) = rounds[i / pairs.len()];
        let (p1, p2) = pairs[i % pairs.len()];
        assert_eq!(r.component, c);
        assert_eq!(r.frequency, freq);
        assert_eq!((r.partition1, r.partition2), (p1, p2));
        assert_eq!(r.args.n_frames, 60);
        if p1 == 0 {
            assert_eq!(r.stage, 1);
            assert_eq!(r.args.partition_point1, p2);
            assert_eq!(r.args.partition_point2, 6);
            assert_eq!(r.args.order, initial);
        } else {
            assert_eq!(r.stage, 2);
            assert_eq!(r.args.partition_point1, p1);
            assert_eq!(r.args.partition_point2, p2);
            assert_eq!(r.args.order, order);
        }
    }
}

#[test]
fn stage_plan_is_empty_without_partitions() {
    let s = PerformanceStageBenchmarkStrategy::new();
    assert!(s.plan(&context(0)).is_empty());
    assert!(s.plan(&context(-3)).is_empty());
    assert_eq!(s.plan(&context(1)).len(), 6);
}

#[test]
fn benchmark_results_record_their_inputs() {
    let r = PerformanceBenchmarkResult::new("L".to_string(), 500000, 10, PipeAllResult::default());
    assert_eq!(r.component, "L");
    assert_eq!(r.frequency, 500000);
    assert_eq!(r.n_frames, 10);
    let s = PerformanceStageBenchmarkResult::new("Gpu".to_string(), 0, PipeAllResult::default(), 3, 2);
    assert_eq!((s.partition_point1, s.partition_point2, s.stage), (3, 4, 2));
    let w = PerformanceStageBenchmarkResult::new_wide("Big".to_string(), 2208000, PipeAllResult::default(), 0, 4, 1);
    assert_eq!((w.partition_point1, w.partition_point2, w.stage), (0, 4, 1));
    let d = StrategyResult::default();
    assert_eq!(d.args.order, "");
    assert_eq!(d.results.fps, None);
}

#[test]
fn stage_plan_size_follows_pair_count() {
    let s = PerformanceStageBenchmarkStrategy::new();
    for (partitions, pairs) in [(1, 1), (2, 3), (3, 6), (4, 10), (18, 66), (28, 106)] {
        assert_eq!(s.plan(&context(partitions)).len(), 6 * pairs, "partitions {}", partitions);
    }
}
