//! What every strategy works with, and the choice of a strategy by name.
pub mod demo;
pub mod performance_benchmark;
pub mod performance_stage_benchmark;

use vstd::prelude::*;
use crate::hardware::Hardware;
use crate::pipe_all::{PipeAll, PipeAllArgs, PipeAllResult, PipeAllStageResult};
use crate::text::same_text;

verus! {

/// The board, the pipeline and the targets that a strategy works towards.
pub struct StrategyContext {
    pub graph: String,
    pub partitions: i32,
    /// Frames per second.
    pub target_fps: i32,
    /// Milliseconds.
    pub target_latency: i32,
    pub pipe_all: PipeAll,
    pub hardware: Hardware,
}

/// What a strategy settled on: the run's arguments, the hardware state and
/// the run's measurements.
#[derive(Debug)]
pub struct StrategyResult {
    pub args: PipeAllArgs,
    pub hardware: Hardware,
    pub results: PipeAllResult,
}

impl Default for StrategyResult {
    fn default() -> (r: StrategyResult)
        ensures
            r.args.graph@ == Seq::<char>::empty(),
            r.args.n_frames == 0,
            r.args.partition_point1 == 0,
            r.args.partition_point2 == 0,
            r.args.order@ == Seq::<char>::empty(),
            r.hardware.little.name@ == Seq::<char>::empty(),
            r.hardware.little.frequency_policy == 0,
            r.hardware.little.frequency == 0,
            r.hardware.big.name@ == Seq::<char>::empty(),
            r.hardware.big.frequency_policy == 0,
            r.hardware.big.frequency == 0,
            (r.results.fps is None),
            (r.results.latency is None),
            (r.results.stage_one == PipeAllStageResult { input_time: None, inference_time: None, total_time: None }),
            (r.results.stage_two == PipeAllStageResult { input_time: None, inference_time: None, total_time: None }),
            (r.results.stage_three == PipeAllStageResult { input_time: None, inference_time: None, total_time: None }),
    {
        StrategyResult {
            args: PipeAllArgs::default(),
            hardware: Hardware::default(),
            results: PipeAllResult::default(),
        }
    }
}

/// The strategies that can be chosen by name.
#[derive(Debug, Clone, Copy, PartialEq, Eq, Structural)]
pub enum StrategyKind {
    Demo,
    Perf,
    PerfStage,
    PerfBasic,
}

/// The strategy that `name` selects.
pub fn get_strategy_by_name(name: &str) -> (kind: Option<StrategyKind>)
    ensures
        kind == if name@ == "demo"@ {
            Some(StrategyKind::Demo)
        } else if name@ == "perf"@ {
            Some(StrategyKind::Perf)
        } else if name@ == "perf-stage"@ {
            Some(StrategyKind::PerfStage)
        } else if name@ == "perf-basic"@ {
            Some(StrategyKind::PerfBasic)
        } else {
            None
        },
{
    if same_text(name, "demo") {
        Some(StrategyKind::Demo)
    } else if same_text(name, "perf") {
        Some(StrategyKind::Perf)
    } else if same_text(name, "perf-stage") {
        Some(StrategyKind::PerfStage)
    } else if same_text(name, "perf-basic") {
        Some(StrategyKind::PerfBasic)
    } else {
        None
    }
}

} // verus!
