use pipe_governor::pipe_all::PipeAllResult;

const REPORT: &str = "\
Loading graph ...
Frame rate is: 12.5 fps
Frame latency is: 250.25 ms
stage1_input_time: 1.5 ms
stage1_inference_time: 40.125 ms
stage1_total_time: 41.625 ms
stage2_input_time: 2 ms
stage2_inference_time: 35 ms
stage2_total_time: 37 ms
stage3_input_time: 0.5 ms
stage3_inference_time: 60.75 ms
stage3_total_time: 61.25 ms
";

fn text(o: &Option<String>) -> Option<&str> {
    o.as_deref()
}

#[test]
fn parse_full_report() {
    let r = PipeAllResult::parse_results(REPORT.to_string());
    assert_eq!(text(&r.fps), Some("12.5"));
    assert_eq!(text(&r.latency), Some("250.25"));
    assert_eq!(text(&r.stage_one.input_time), Some("1.5"));
    assert_eq!(text(&r.stage_one.inference_time), Some("40.125"));
    assert_eq!(text(&r.stage_one.total_time), Some("41.625"));
    assert_eq!(text(&r.stage_two.input_time), Some("2"));
    assert_eq!(text(&r.stage_two.inference_time), Some("35"));
    assert_eq!(text(&r.stage_two.total_time), Some("37"));
    assert_eq!(text(&r.stage_three.input_time), Some("0.5"));
    assert_eq!(text(&r.stage_three.inference_time), Some("60.75"));
    assert_eq!(text(&r.stage_three.total_time), Some("61.25"));
}

#[test]
fn parse_empty_report_gives_nothing() {
    let r = PipeAllResult::parse_results(String::new());
    assert_eq!(r.fps, None);
    assert_eq!(r.latency, None);
    assert_eq!(r.stage_three.total_time, None);
}

#[test]
fn last_line_with_a_number_wins() {
    let r = PipeAllResult::parse_results(
        "Frame rate is: 10\nFrame rate is: 20\nFrame rate is: n/a\n".to_string(),
    );
    assert_eq!(text(&r.fps), Some("20"));
}

#[test]
fn leading_white_space_and_crlf_are_ignored() {
    let r = PipeAllResult::parse_results(
        "   \tFrame latency is: 7.5 ms\r\n  stage2_total_time:\t3e2\r\n".to_string(),
    );
    assert_eq!(text(&r.latency), Some("7.5"));
    assert_eq!(text(&r.stage_two.total_time), Some("3e2"));
}

#[test]
fn label_must_start_the_line() {
    let r = PipeAllResult::parse_results("note: Frame rate is: 30\n".to_string());
    assert_eq!(r.fps, None);
}

#[test]
fn label_fused_with_number_is_one_word() {
    let r = PipeAllResult::parse_results("Frame rate is:30 ok 5\n".to_string());
    assert_eq!(text(&r.fps), Some("5"));
}

#[test]
fn first_number_word_of_the_line() {
    let r = PipeAllResult::parse_results("Frame rate is: about 1.2.3 -4.5e1 6\n".to_string());
    assert_eq!(text(&r.fps), Some("-4.5e1"));
}

#[test]
fn stage_labels_do_not_mix() {
    let r = PipeAllResult::parse_results(
        "stage1_inference_time: 1\nstage3_inference_time: 3\n".to_string(),
    );
    assert_eq!(text(&r.stage_one.inference_time), Some("1"));
    assert_eq!(r.stage_two.inference_time, None);
    assert_eq!(text(&r.stage_three.inference_time), Some("3"));
}

#[test]
fn accepted_words_are_those_f32_accepts() {
    let words = [
        "1", "1.", ".5", ".", "+1", "-1e5", "1e", "1e+", "1E-3", "inf", "-Infinity", "NaN",
        "nan1", "infinit", "++1", "0x10", "1_000", "e3", "1.5e3.2", "+.5E+07", "INF", "-",
        "12ms", "0", "00.00", "1e-0", "١",
    ];
    for w in words {
        let report = format!("Frame rate is: {}\n", w);
        let r = PipeAllResult::parse_results(report);
        let expected = if w.parse::<f32>().is_ok() { Some(w) } else { None };
        assert_eq!(text(&r.fps), expected, "word {:?}", w);
    }
}

#[test]
fn every_reported_value_parses_as_f32() {
    let r = PipeAllResult::parse_results(
        "Frame rate is: x 1e5 y\nFrame latency is: inf\nstage1_input_time: -.25\n".to_string(),
    );
    for v in [&r.fps, &r.latency, &r.stage_one.input_time] {
        let v = v.as_ref().unwrap();
        assert!(v.parse::<f32>().is_ok());
    }
}

fn all_fields(r: &PipeAllResult) -> Vec<Option<String>> {
    vec![
        r.fps.clone(),
        r.latency.clone(),
        r.stage_one.input_time.clone(),
        r.stage_one.inference_time.clone(),
        r.stage_one.total_time.clone(),
        r.stage_two.input_time.clone(),
        r.stage_two.inference_time.clone(),
        r.stage_two.total_time.clone(),
        r.stage_three.input_time.clone(),
        r.stage_three.inference_time.clone(),
        r.stage_three.total_time.clone(),
    ]
}

#[test]
fn joined_report_takes_later_part_first() {
    let a = "Frame rate is: 10\nstage1_input_time: 1\nFrame latency is: 100";
    let b = "Frame rate is: 20\nstage2_total_time: 7";
    let joined = all_fields(&PipeAllResult::parse_results(format!("{}\n{}", a, b)));
    let fa = all_fields(&PipeAllResult::parse_results(a.to_string()));
    let fb = all_fields(&PipeAllResult::parse_results(b.to_string()));
    for k in 0..11 {
        let expected = if fb[k].is_some() { fb[k].clone() } else { fa[k].clone() };
        assert_eq!(joined[k], expected, "field {}", k);
    }
    assert_eq!(joined[0].as_deref(), Some("20"));
    assert_eq!(joined[1].as_deref(), Some("100"));
}

#[test]
fn unlabelled_lines_and_padding_change_nothing() {
    let plain = "Frame rate is: 12.5\nstage3_inference_time: 4\nFrame latency is: 9";
    let noisy = "booting\n\n  Frame rate is: 12.5 \t\nsomething else: 3\nstage3_inference_time: 4   \n\t Frame latency is: 9\ndone";
    assert_eq!(
        all_fields(&PipeAllResult::parse_results(plain.to_string())),
        all_fields(&PipeAllResult::parse_results(noisy.to_string()))
    );
}
