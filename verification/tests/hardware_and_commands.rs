use pipe_governor::consts::{big_freq_interp, big_frequencies, little_freq_interp, little_frequencies};
use pipe_governor::hardware::{Component, Cores, Hardware};
use pipe_governor::pipe_all::{PipeAll, PipeAllArgs};
use pipe_governor::text::{push_decimal, same_text};

#[test]
fn cores_start_at_frequency_zero() {
    let c = Cores::new("Little".to_string(), 0);
    assert_eq!(c.name, "Little");
    assert_eq!(c.frequency_policy, 0);
    assert_eq!(c.frequency, 0);
}

#[test]
fn hardware_holds_both_clusters() {
    let h = Hardware::new(Cores::new("Little".to_string(), 0), Cores::new("Big".to_string(), 2));
    assert_eq!(h.little.name, "Little");
    assert_eq!(h.big.name, "Big");
    assert_eq!(h.big.frequency_policy, 2);
}

#[test]
fn set_frequency_records_the_frequency() {
    let mut c = Cores::new("Big".to_string(), 2);
    c.set_frequency(2208000);
    assert_eq!(c.frequency, 2208000);
    assert_eq!(c.name, "Big");
    assert_eq!(c.frequency_policy, 2);
}

#[test]
fn frequency_command_text() {
    let c = Cores::new("Big".to_string(), 2);
    assert_eq!(
        c.frequency_command(1398000),
        "echo 1398000 > /sys/devices/system/cpu/cpufreq/policy2/scaling_max_freq"
    );
    let l = Cores::new("Little".to_string(), 0);
    assert_eq!(
        l.frequency_command(500000),
        "echo 500000 > /sys/devices/system/cpu/cpufreq/policy0/scaling_max_freq"
    );
}

#[test]
fn decimal_rendering_matches_display() {
    for x in [0, 7, 10, 99, 100, 123456, -1, -10, -98765, i32::MAX, i32::MIN] {
        let mut s = String::from("x=");
        push_decimal(&mut s, x);
        assert_eq!(s, format!("x={}", x));
    }
}

#[test]
fn pipe_all_command_text() {
    let args = PipeAllArgs {
        graph: "graph_alexnet_all_pipe_sync".to_string(),
        n_frames: 10,
        partition_point1: 2,
        partition_point2: 6,
        order: "G-B-L".to_string(),
    };
    let cmd = PipeAll::new().command(&args);
    assert_eq!(
        cmd,
        "./graph_alexnet_all_pipe_sync --threads=4 --threads2=2 --target=NEON --n=10 --partition_point=2 --partition_point2=6 --order=G-B-L"
    );
}

#[test]
fn frequency_tables() {
    let l = little_frequencies();
    let b = big_frequencies();
    assert_eq!(l.len(), 8);
    assert_eq!(b.len(), 13);
    assert_eq!(l[0], 500000);
    assert_eq!(l[7], 1800000);
    assert_eq!(b[12], 2208000);
    assert!(l.windows(2).all(|w| w[0] < w[1]));
    assert!(b.windows(2).all(|w| w[0] < w[1]));
    assert_eq!(little_freq_interp(), vec![500000, 1000000, 1398000, 1800000]);
    assert_eq!(big_freq_interp(), vec![500000, 1000000, 1512000, 2016000, 2208000]);
}

#[test]
fn component_names() {
    assert_eq!(Component::Little.to_string(), "Little");
    assert_eq!(Component::Big.to_string(), "Big");
    assert_eq!(Component::Gpu.to_string(), "Gpu");
    assert_eq!(Component::Little.initial(), "L");
    assert_eq!(Component::Big.initial(), "B");
    assert_eq!(Component::Gpu.initial(), "G");
}

#[test]
fn same_text_compares_characters() {
    assert!(same_text("perf", "perf"));
    assert!(!same_text("perf", "perf-stage"));
    assert!(!same_text("demo", "Demo"));
    assert!(same_text("", ""));
}

#[test]
fn defaults_are_empty() {
    let h = Hardware::default();
    assert_eq!(h.little.frequency, 0);
    assert_eq!(h.big.name, "");
    let a = PipeAllArgs::default();
    assert_eq!(a.graph, "");
    assert_eq!(a.n_frames, 0);
}
