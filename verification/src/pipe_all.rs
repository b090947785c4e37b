//! The pipelined inference program: the command line of one run and the
//! report it prints.
use vstd::prelude::*;
use vstd::string::*;
use crate::numeral::{float_literal, is_float_literal, is_white_space, white_space};
use crate::text::{chars_of, decimal, push_decimal};

verus! {

/// The arguments of one run of the pipeline.
#[derive(Debug, Clone)]
pub struct PipeAllArgs {
    pub graph: String,
    pub n_frames: i32,
    pub partition_point1: i32,
    pub partition_point2: i32,
    pub order: String,
}

/// The measurements of one pipeline stage, as the numbers' text in the report
/// (`None` where the report gave none).
#[derive(Debug, Clone)]
pub struct PipeAllStageResult {
    pub input_time: Option<String>,
    pub inference_time: Option<String>,
    pub total_time: Option<String>,
}

/// The measurements of one run, as the numbers' text in the report (`None`
/// where the report gave none): frame rate, frame latency and the three stages.
#[derive(Debug, Clone)]
pub struct PipeAllResult {
    pub fps: Option<String>,
    pub latency: Option<String>,
    pub stage_one: PipeAllStageResult,
    pub stage_two: PipeAllStageResult,
    pub stage_three: PipeAllStageResult,
}

/// Runs the pipeline program.
pub struct PipeAll {}

impl Default for PipeAllArgs {
    fn default() -> (a: PipeAllArgs)
        ensures
            a.graph@ == Seq::<char>::empty(),
            a.n_frames == 0,
            a.partition_point1 == 0,
            a.partition_point2 == 0,
            a.order@ == Seq::<char>::empty(),
    {
        PipeAllArgs {
            graph: String::new(),
            n_frames: 0,
            partition_point1: 0,
            partition_point2: 0,
            order: String::new(),
        }
    }
}

impl Default for PipeAllStageResult {
    fn default() -> (r: PipeAllStageResult)
        ensures
            (r.input_time is None),
            (r.inference_time is None),
            (r.total_time is None),
    {
        PipeAllStageResult { input_time: None, inference_time: None, total_time: None }
    }
}

impl Default for PipeAllResult {
    fn default() -> (r: PipeAllResult)
        ensures
            (r.fps is None),
            (r.latency is None),
            (r.stage_one == PipeAllStageResult { input_time: None, inference_time: None, total_time: None }),
            (r.stage_two == PipeAllStageResult { input_time: None, inference_time: None, total_time: None }),
            (r.stage_three == PipeAllStageResult { input_time: None, inference_time: None, total_time: None }),
    {
        PipeAllResult {
            fps: None,
            latency: None,
            stage_one: PipeAllStageResult::default(),
            stage_two: PipeAllStageResult::default(),
            stage_three: PipeAllStageResult::default(),
        }
    }
}

pub open spec fn opt_text(o: Option<String>) -> Option<Seq<char>> {
    match o {
        Some(s) => Some(s@),
        None => None,
    }
}

/// The command line that runs the pipeline with `args`.
pub open spec fn spec_pipe_all_command(args: PipeAllArgs) -> Seq<char> {
    "./"@ + args.graph@ + " --threads=4 --threads2=2 --target=NEON --n="@ + decimal(
        args.n_frames as int,
    ) + " --partition_point="@ + decimal(args.partition_point1 as int)
        + " --partition_point2="@ + decimal(args.partition_point2 as int) + " --order="@
        + args.order@
}

/// The command line starts with the program, the fixed options and the frame
/// count and the first partition point; it ends with the second partition
/// point and the order; and nothing stands between the two, whatever the
/// arguments (equal partition points included).
pub proof fn lemma_pipe_all_command_parts(args: PipeAllArgs)
    ensures
        ({
            let cmd = spec_pipe_all_command(args);
            let head = "./"@ + args.graph@ + " --threads=4 --threads2=2 --target=NEON --n="@
                + decimal(args.n_frames as int) + " --partition_point="@ + decimal(
                args.partition_point1 as int,
            );
            let tail = " --partition_point2="@ + decimal(args.partition_point2 as int)
                + " --order="@ + args.order@;
            &&& cmd.len() == head.len() + tail.len()
            &&& cmd.subrange(0, head.len() as int) == head
            &&& cmd.subrange(head.len() as int, cmd.len() as int) == tail
        }),
{
    let cmd = spec_pipe_all_command(args);
    let head = "./"@ + args.graph@ + " --threads=4 --threads2=2 --target=NEON --n="@ + decimal(
        args.n_frames as int,
    ) + " --partition_point="@ + decimal(args.partition_point1 as int);
    let tail = " --partition_point2="@ + decimal(args.partition_point2 as int) + " --order="@
        + args.order@;
    assert(cmd =~= head + tail);
    assert(cmd.subrange(0, head.len() as int) =~= head);
    assert(cmd.subrange(head.len() as int, cmd.len() as int) =~= tail);
}

impl PipeAll {
    pub fn new() -> PipeAll {
        PipeAll {}
    }

    /// The shell command of one run with `args`.
    pub fn command(&self, args: &PipeAllArgs) -> (cmd: String)
        ensures
            cmd@ == spec_pipe_all_command(*args),
    {
        let mut cmd = String::new();
        cmd.append("./");
        cmd.append(args.graph.as_str());
        cmd.append(" --threads=4 --threads2=2 --target=NEON --n=");
        push_decimal(&mut cmd, args.n_frames);
        cmd.append(" --partition_point=");
        push_decimal(&mut cmd, args.partition_point1);
        cmd.append(" --partition_point2=");
        push_decimal(&mut cmd, args.partition_point2);
        cmd.append(" --order=");
        cmd.append(args.order.as_str());
        proof {
            assert(cmd@ =~= spec_pipe_all_command(*args));
        }
        cmd
    }
}

// ---------------------------------------------------------------------------
// The report. It is read line by line (lines end at '\n'). A line "gives" a
// measurement when, after its leading white space, it starts with the
// measurement's label; the value is then the first white-space separated word
// of the line that reads as an `f32`. Each measurement takes the value of the
// last line that gives it.
// ---------------------------------------------------------------------------

/// The end of the line that starts at `i`: the next '\n', or the end of `s`.
pub open spec fn line_end(s: Seq<char>, i: int) -> int
    decreases s.len() - i,
{
    if 0 <= i < s.len() && s[i] != '\n' {
        line_end(s, i + 1)
    } else {
        i
    }
}

/// The first index from `i` on, before `e`, that is not white space (or `e`).
pub open spec fn skip_white(s: Seq<char>, i: int, e: int) -> int
    decreases e - i,
{
    if i < e && is_white_space(s[i]) {
        skip_white(s, i + 1, e)
    } else {
        i
    }
}

/// The end of the word that starts at `i`, within `[i, e)`.
pub open spec fn skip_word(s: Seq<char>, i: int, e: int) -> int
    decreases e - i,
{
    if i < e && !is_white_space(s[i]) {
        skip_word(s, i + 1, e)
    } else {
        i
    }
}

pub proof fn lemma_skip_word_ge(s: Seq<char>, i: int, e: int)
    ensures
        skip_word(s, i, e) >= i,
        i <= e ==> skip_word(s, i, e) <= e,
        i < e && !is_white_space(s[i]) ==> skip_word(s, i, e) > i,
    decreases e - i,
{
    if i < e && !is_white_space(s[i]) {
        lemma_skip_word_ge(s, i + 1, e);
    }
}

pub proof fn lemma_line_end_ge(s: Seq<char>, i: int)
    ensures
        line_end(s, i) >= i,
    decreases s.len() - i,
{
    if 0 <= i < s.len() && s[i] != '\n' {
        lemma_line_end_ge(s, i + 1);
    }
}

/// The span of the first word in `[i, e)` that reads as an `f32`.
pub open spec fn first_number(s: Seq<char>, i: int, e: int) -> Option<(int, int)>
    decreases e - i
    via first_number_decreases
{
    if i >= e {
        None
    } else if is_white_space(s[i]) {
        first_number(s, i + 1, e)
    } else {
        let b = skip_word(s, i, e);
        if float_literal(s.subrange(i, b)) {
            Some((i, b))
        } else {
            first_number(s, b, e)
        }
    }
}

#[via_fn]
proof fn first_number_decreases(s: Seq<char>, i: int, e: int) {
    lemma_skip_word_ge(s, i, e);
}

/// What the line `[a, e)` gives of the measurement labelled `label`.
pub open spec fn line_value(s: Seq<char>, label: Seq<char>, a: int, e: int) -> Option<(int, int)> {
    let t = skip_white(s, a, e);
    if t + label.len() <= e && s.subrange(t, t + label.len()) == label {
        first_number(s, a, e)
    } else {
        None
    }
}

/// The span of the measurement labelled `label`, given by the lines from `i`
/// on, where `acc` is what the lines before gave.
pub open spec fn label_span(s: Seq<char>, label: Seq<char>, i: int, acc: Option<(int, int)>) -> Option<(int, int)>
    decreases s.len() - i,
{
    let e = line_end(s, i);
    let here = match line_value(s, label, i, e) {
        Some(sp) => Some(sp),
        None => acc,
    };
    if 0 <= i && e < s.len() {
        proof {
            lemma_line_end_ge(s, i);
        }
        label_span(s, label, e + 1, here)
    } else {
        here
    }
}

/// The text of the measurement labelled `label` in the report `s`: the first
/// `f32` word of the last line that gives it, or `None`.
pub open spec fn label_value(s: Seq<char>, label: Seq<char>) -> Option<Seq<char>> {
    match label_span(s, label, 0, None) {
        Some(sp) => Some(s.subrange(sp.0, sp.1)),
        None => None,
    }
}

proof fn lemma_first_number_is_number(s: Seq<char>, i: int, e: int)
    ensures
        first_number(s, i, e) matches Some(sp) ==> float_literal(s.subrange(sp.0, sp.1)),
    decreases e - i,
{
    if i < e {
        if is_white_space(s[i]) {
            lemma_first_number_is_number(s, i + 1, e);
        } else {
            let b = skip_word(s, i, e);
            lemma_skip_word_ge(s, i, e);
            if !float_literal(s.subrange(i, b)) {
                lemma_first_number_is_number(s, b, e);
            }
        }
    }
}

proof fn lemma_label_span_is_number(s: Seq<char>, label: Seq<char>, i: int, acc: Option<(int, int)>)
    requires
        acc matches Some(sp) ==> float_literal(s.subrange(sp.0, sp.1)),
    ensures
        label_span(s, label, i, acc) matches Some(sp) ==> float_literal(s.subrange(sp.0, sp.1)),
    decreases s.len() - i,
{
    let e = line_end(s, i);
    lemma_first_number_is_number(s, i, e);
    let here = match line_value(s, label, i, e) {
        Some(sp) => Some(sp),
        None => acc,
    };
    if 0 <= i && e < s.len() {
        lemma_line_end_ge(s, i);
        lemma_label_span_is_number(s, label, e + 1, here);
    }
}

/// Whatever the report gives for a label is a word that `f32::from_str`
/// accepts.
pub proof fn lemma_label_value_is_number(s: Seq<char>, label: Seq<char>)
    ensures
        label_value(s, label) matches Some(w) ==> float_literal(w),
{
    lemma_label_span_is_number(s, label, 0, None);
}

/// The labels of the measurements, in the order of the fields of `PipeAllResult`.
pub open spec fn report_label(k: int) -> Seq<char> {
    if k == 0 { "Frame rate is:"@ }
    else if k == 1 { "Frame latency is:"@ }
    else if k == 2 { "stage1_input_time:"@ }
    else if k == 3 { "stage1_inference_time:"@ }
    else if k == 4 { "stage1_total_time:"@ }
    else if k == 5 { "stage2_input_time:"@ }
    else if k == 6 { "stage2_inference_time:"@ }
    else if k == 7 { "stage2_total_time:"@ }
    else if k == 8 { "stage3_input_time:"@ }
    else if k == 9 { "stage3_inference_time:"@ }
    else { "stage3_total_time:"@ }
}

pub open spec fn span_view(o: Option<(usize, usize)>) -> Option<(int, int)> {
    match o {
        Some(sp) => Some((sp.0 as int, sp.1 as int)),
        None => None,
    }
}

fn find_line_end(s: &Vec<char>, i: usize) -> (e: usize)
    requires
        i <= s.len(),
    ensures
        e == line_end(s@, i as int),
        i <= e <= s.len(),
{
    let mut e = i;
    while e < s.len() && s[e] != '\n'
        invariant
            i <= e <= s.len(),
            line_end(s@, i as int) == line_end(s@, e as int),
        decreases s.len() - e,
    {
        e = e + 1;
    }
    e
}

fn find_non_white(s: &Vec<char>, i: usize, e: usize) -> (t: usize)
    requires
        i <= e <= s.len(),
    ensures
        t == skip_white(s@, i as int, e as int),
        i <= t <= e,
        t < e ==> !is_white_space(s@[t as int]),
{
    let mut t = i;
    while t < e && white_space(s[t])
        invariant
            i <= t <= e <= s.len(),
            skip_white(s@, i as int, e as int) == skip_white(s@, t as int, e as int),
        decreases e - t,
    {
        t = t + 1;
    }
    t
}

fn find_word_end(s: &Vec<char>, i: usize, e: usize) -> (b: usize)
    requires
        i <= e <= s.len(),
    ensures
        b == skip_word(s@, i as int, e as int),
        i <= b <= e,
        i < e && !is_white_space(s@[i as int]) ==> b > i,
{
    let mut b = i;
    while b < e && !white_space(s[b])
        invariant
            i <= b <= e <= s.len(),
            skip_word(s@, i as int, e as int) == skip_word(s@, b as int, e as int),
            i < e && !is_white_space(s@[i as int]) ==> b > i || b == i && b < e && !is_white_space(s@[b as int]),
        decreases e - b,
    {
        b = b + 1;
    }
    b
}

fn sub_chars(s: &Vec<char>, a: usize, b: usize) -> (w: Vec<char>)
    requires
        a <= b <= s.len(),
    ensures
        w@ == s@.subrange(a as int, b as int),
{
    let mut w: Vec<char> = Vec::new();
    let mut k = a;
    while k < b
        invariant
            a <= k <= b <= s.len(),
            w@ == s@.subrange(a as int, k as int),
        decreases b - k,
    {
        w.push(s[k]);
        proof {
            assert(w@ =~= s@.subrange(a as int, k + 1));
        }
        k = k + 1;
    }
    w
}

proof fn lemma_first_number_skip(s: Seq<char>, i: int, e: int)
    ensures
        first_number(s, i, e) == first_number(s, skip_white(s, i, e), e),
    decreases e - i,
{
    if i < e && is_white_space(s[i]) {
        lemma_first_number_skip(s, i + 1, e);
    }
}

/// The span of the first word in `[i, e)` that reads as an `f32`.
fn find_number(s: &Vec<char>, i: usize, e: usize) -> (r: Option<(usize, usize)>)
    requires
        i <= e <= s.len(),
    ensures
        span_view(r) == first_number(s@, i as int, e as int),
        r matches Some(sp) ==> i <= sp.0 <= sp.1 <= e,
{
    let mut j = i;
    while j < e
        invariant
            i <= j <= e <= s.len(),
            first_number(s@, i as int, e as int) == first_number(s@, j as int, e as int),
        decreases e - j,
    {
        let a = find_non_white(s, j, e);
        proof {
            lemma_first_number_skip(s@, j as int, e as int);
        }
        if a >= e {
            return None;
        }
        let b = find_word_end(s, a, e);
        let w = sub_chars(s, a, b);
        if is_float_literal(&w) {
            return Some((a, b));
        }
        j = b;
    }
    None
}

/// What the line `[a, e)` gives of the measurement labelled `label`.
fn extract(label: &Vec<char>, s: &Vec<char>, a: usize, e: usize) -> (r: Option<(usize, usize)>)
    requires
        a <= e <= s.len(),
    ensures
        span_view(r) == line_value(s@, label@, a as int, e as int),
        r matches Some(sp) ==> sp.0 <= sp.1 <= s.len(),
{
    let t = find_non_white(s, a, e);
    if label.len() > e - t {
        return None;
    }
    let mut k: usize = 0;
    while k < label.len()
        invariant
            a <= t <= e <= s.len(),
            t == skip_white(s@, a as int, e as int),
            label.len() <= e - t,
            k <= label.len(),
            forall|q: int| 0 <= q < k ==> s@[t + q] == label@[q],
        decreases label.len() - k,
    {
        if s[t + k] != label[k] {
            proof {
                assert(s@.subrange(t as int, t + label.len())[k as int] != label@[k as int]);
            }
            return None;
        }
        k = k + 1;
    }
    proof {
        assert(s@.subrange(t as int, t + label.len()) =~= label@);
    }
    find_number(s, a, e)
}

fn label_chars(k: usize) -> (v: Vec<char>)
    requires
        k < 11,
    ensures
        v@ == report_label(k as int),
{
    if k == 0 { chars_of("Frame rate is:") }
    else if k == 1 { chars_of("Frame latency is:") }
    else if k == 2 { chars_of("stage1_input_time:") }
    else if k == 3 { chars_of("stage1_inference_time:") }
    else if k == 4 { chars_of("stage1_total_time:") }
    else if k == 5 { chars_of("stage2_input_time:") }
    else if k == 6 { chars_of("stage2_inference_time:") }
    else if k == 7 { chars_of("stage2_total_time:") }
    else if k == 8 { chars_of("stage3_input_time:") }
    else if k == 9 { chars_of("stage3_inference_time:") }
    else { chars_of("stage3_total_time:") }
}

/// The text that `span` covers in `output`.
fn span_text(output: &String, span: Option<(usize, usize)>) -> (t: Option<String>)
    requires
        span matches Some(sp) ==> sp.0 <= sp.1 <= output@.len(),
    ensures
        opt_text(t) == match span {
            Some(sp) => Some(output@.subrange(sp.0 as int, sp.1 as int)),
            None => None,
        },
{
    match span {
        Some(sp) => Some(output.as_str().substring_char(sp.0, sp.1).to_owned()),
        None => None,
    }
}

/// The spans of all measurements in the report `s`, indexed as `report_label`.
fn report_spans(s: &Vec<char>) -> (spans: Vec<Option<(usize, usize)>>)
    ensures
        spans.len() == 11,
        forall|k: int| 0 <= k < 11 ==> span_view(#[trigger] spans@[k]) == label_span(s@, report_label(k), 0, None),
        forall|k: int| 0 <= k < 11 ==> (#[trigger] spans@[k] matches Some(sp) ==> sp.0 <= sp.1 <= s.len()),
{
    let mut labels: Vec<Vec<char>> = Vec::new();
    let mut spans: Vec<Option<(usize, usize)>> = Vec::new();
    for k in 0..11usize
        invariant
            labels.len() == k,
            spans.len() == k,
            forall|q: int| 0 <= q < k ==> (#[trigger] labels@[q])@ == report_label(q),
            forall|q: int| 0 <= q < k ==> #[trigger] spans@[q] == None::<(usize, usize)>,
    {
        labels.push(label_chars(k));
        spans.push(None);
    }
    let mut i: usize = 0;
    loop
        invariant
            i <= s.len(),
            labels.len() == 11,
            spans.len() == 11,
            forall|q: int| 0 <= q < 11 ==> (#[trigger] labels@[q])@ == report_label(q),
            forall|q: int| 0 <= q < 11 ==> label_span(s@, report_label(q), 0, None)
                == label_span(s@, report_label(q), i as int, span_view(#[trigger] spans@[q])),
            forall|q: int| 0 <= q < 11 ==> (#[trigger] spans@[q] matches Some(sp) ==> sp.0 <= sp.1 <= s.len()),
        decreases s.len() - i,
    {
        let e = find_line_end(s, i);
        let ghost before = spans@;
        for k in 0..11usize
            invariant
                i <= e <= s.len(),
                e == line_end(s@, i as int),
                labels.len() == 11,
                spans.len() == 11,
                forall|q: int| 0 <= q < 11 ==> (#[trigger] labels@[q])@ == report_label(q),
                forall|q: int| 0 <= q < k ==> span_view(#[trigger] spans@[q]) == match line_value(s@, report_label(q), i as int, e as int) {
                    Some(sp) => Some(sp),
                    None => span_view(before[q]),
                },
                forall|q: int| k <= q < 11 ==> #[trigger] spans@[q] == before[q],
                forall|q: int| 0 <= q < 11 ==> (#[trigger] spans@[q] matches Some(sp) ==> sp.0 <= sp.1 <= s.len()),
        {
            let found = extract(&labels[k], s, i, e);
            if found.is_some() {
                spans.set(k, found);
            }
        }
        if e < s.len() {
            i = e + 1;
        } else {
            return spans;
        }
    }
}

impl PipeAllResult {
    /// Reads the measurements out of the pipeline's report.
    pub fn parse_results(output: String) -> (r: PipeAllResult)
        ensures
            opt_text(r.fps) == label_value(output@, "Frame rate is:"@),
            opt_text(r.latency) == label_value(output@, "Frame latency is:"@),
            opt_text(r.stage_one.input_time) == label_value(output@, "stage1_input_time:"@),
            opt_text(r.stage_one.inference_time) == label_value(output@, "stage1_inference_time:"@),
            opt_text(r.stage_one.total_time) == label_value(output@, "stage1_total_time:"@),
            opt_text(r.stage_two.input_time) == label_value(output@, "stage2_input_time:"@),
            opt_text(r.stage_two.inference_time) == label_value(output@, "stage2_inference_time:"@),
            opt_text(r.stage_two.total_time) == label_value(output@, "stage2_total_time:"@),
            opt_text(r.stage_three.input_time) == label_value(output@, "stage3_input_time:"@),
            opt_text(r.stage_three.inference_time) == label_value(output@, "stage3_inference_time:"@),
            opt_text(r.stage_three.total_time) == label_value(output@, "stage3_total_time:"@),
    {
        let s = chars_of(output.as_str());
        let spans = report_spans(&s);
        let fps = span_text(&output, spans[0]);
        let latency = span_text(&output, spans[1]);
        let stage_one = PipeAllStageResult {
            input_time: span_text(&output, spans[2]),
            inference_time: span_text(&output, spans[3]),
            total_time: span_text(&output, spans[4]),
        };
        let stage_two = PipeAllStageResult {
            input_time: span_text(&output, spans[5]),
            inference_time: span_text(&output, spans[6]),
            total_time: span_text(&output, spans[7]),
        };
        let stage_three = PipeAllStageResult {
            input_time: span_text(&output, spans[8]),
            inference_time: span_text(&output, spans[9]),
            total_time: span_text(&output, spans[10]),
        };
        PipeAllResult { fps, latency, stage_one, stage_two, stage_three }
    }
}

// ---------------------------------------------------------------------------
// Laws of the report: a report joined from two parts, unlabelled lines, and
// white space around a line.
// ---------------------------------------------------------------------------

/// Two reports joined by a line break.
pub open spec fn join_lines(a: Seq<char>, b: Seq<char>) -> Seq<char> {
    a + seq!['\n'] + b
}

/// `l` holds no line break: it is one line.
pub open spec fn no_newline(l: Seq<char>) -> bool {
    forall|k: int| 0 <= k < l.len() ==> l[k] != '\n'
}

/// The line `l`, after its leading white space, starts with `label`.
pub open spec fn line_has_label(l: Seq<char>, label: Seq<char>) -> bool {
    let t = skip_white(l, 0, l.len() as int);
    t + label.len() <= l.len() && l.subrange(t, t + label.len()) == label
}

/// `w` is white space that adds no line break.
pub open spec fn is_padding(w: Seq<char>) -> bool {
    forall|k: int| 0 <= k < w.len() ==> is_white_space(w[k]) && w[k] != '\n'
}

/// `s1` on `[lo, hi)` holds what `s2` holds on `[lo + d, hi + d)`.
pub open spec fn agree(s1: Seq<char>, s2: Seq<char>, lo: int, hi: int, d: int) -> bool {
    forall|k: int| lo <= k < hi ==> #[trigger] s1[k] == s2[k + d]
}

/// `s` on `[i, j)` is all white space.
pub open spec fn all_white(s: Seq<char>, i: int, j: int) -> bool {
    forall|k: int| i <= k < j ==> is_white_space(#[trigger] s[k])
}

pub open spec fn shift_span(o: Option<(int, int)>, d: int) -> Option<(int, int)> {
    match o {
        Some(sp) => Some((sp.0 + d, sp.1 + d)),
        None => None,
    }
}

pub open spec fn or_else(x: Option<(int, int)>, y: Option<(int, int)>) -> Option<(int, int)> {
    match x {
        Some(sp) => Some(sp),
        None => y,
    }
}

proof fn lemma_skip_white_bounds(s: Seq<char>, i: int, e: int)
    requires
        i <= e,
    ensures
        i <= skip_white(s, i, e) <= e,
    decreases e - i,
{
    if i < e && is_white_space(s[i]) {
        lemma_skip_white_bounds(s, i + 1, e);
    }
}

proof fn lemma_first_number_bounds(s: Seq<char>, i: int, e: int)
    ensures
        first_number(s, i, e) matches Some(sp) ==> i <= sp.0 <= sp.1 <= e,
    decreases e - i,
{
    if i < e {
        if is_white_space(s[i]) {
            lemma_first_number_bounds(s, i + 1, e);
        } else {
            lemma_skip_word_ge(s, i, e);
            let b = skip_word(s, i, e);
            if !float_literal(s.subrange(i, b)) {
                lemma_first_number_bounds(s, b, e);
            }
        }
    }
}

proof fn lemma_line_end_le(s: Seq<char>, i: int)
    requires
        0 <= i <= s.len(),
    ensures
        line_end(s, i) <= s.len(),
    decreases s.len() - i,
{
    if i < s.len() && s[i] != '\n' {
        lemma_line_end_le(s, i + 1);
    }
}

proof fn lemma_label_span_bounds(s: Seq<char>, label: Seq<char>, i: int, acc: Option<(int, int)>)
    requires
        0 <= i <= s.len(),
        acc matches Some(sp) ==> 0 <= sp.0 <= sp.1 <= s.len(),
    ensures
        label_span(s, label, i, acc) matches Some(sp) ==> 0 <= sp.0 <= sp.1 <= s.len(),
    decreases s.len() - i,
{
    let e = line_end(s, i);
    lemma_line_end_ge(s, i);
    lemma_line_end_le(s, i);
    lemma_first_number_bounds(s, i, e);
    let here = or_else(line_value(s, label, i, e), acc);
    if e < s.len() {
        lemma_label_span_bounds(s, label, e + 1, here);
    }
}

proof fn lemma_skip_white_shift(s1: Seq<char>, s2: Seq<char>, i: int, e: int, d: int)
    requires
        i <= e,
        agree(s1, s2, i, e, d),
    ensures
        skip_white(s2, i + d, e + d) == skip_white(s1, i, e) + d,
    decreases e - i,
{
    if i < e {
        assert(s1[i] == s2[i + d]);
        if is_white_space(s1[i]) {
            lemma_skip_white_shift(s1, s2, i + 1, e, d);
        }
    }
}

proof fn lemma_skip_word_shift(s1: Seq<char>, s2: Seq<char>, i: int, e: int, d: int)
    requires
        i <= e,
        agree(s1, s2, i, e, d),
    ensures
        skip_word(s2, i + d, e + d) == skip_word(s1, i, e) + d,
    decreases e - i,
{
    if i < e {
        assert(s1[i] == s2[i + d]);
        if !is_white_space(s1[i]) {
            lemma_skip_word_shift(s1, s2, i + 1, e, d);
        }
    }
}

proof fn lemma_first_number_shift(s1: Seq<char>, s2: Seq<char>, i: int, e: int, d: int)
    requires
        0 <= i <= e <= s1.len(),
        0 <= i + d,
        e + d <= s2.len(),
        agree(s1, s2, i, e, d),
    ensures
        first_number(s2, i + d, e + d) == shift_span(first_number(s1, i, e), d),
    decreases e - i,
{
    if i < e {
        assert(s1[i] == s2[i + d]);
        if is_white_space(s1[i]) {
            lemma_first_number_shift(s1, s2, i + 1, e, d);
        } else {
            let b = skip_word(s1, i, e);
            lemma_skip_word_shift(s1, s2, i, e, d);
            lemma_skip_word_ge(s1, i, e);
            assert(s2.subrange(i + d, b + d) =~= s1.subrange(i, b));
            if !float_literal(s1.subrange(i, b)) {
                lemma_first_number_shift(s1, s2, b, e, d);
            }
        }
    }
}

proof fn lemma_line_value_shift(s1: Seq<char>, s2: Seq<char>, label: Seq<char>, a: int, e: int, d: int)
    requires
        0 <= a <= e <= s1.len(),
        0 <= a + d,
        e + d <= s2.len(),
        agree(s1, s2, a, e, d),
    ensures
        line_value(s2, label, a + d, e + d) == shift_span(line_value(s1, label, a, e), d),
{
    lemma_skip_white_shift(s1, s2, a, e, d);
    lemma_first_number_shift(s1, s2, a, e, d);
    lemma_skip_white_bounds(s1, a, e);
    let t = skip_white(s1, a, e);
    if t + label.len() <= e {
        assert(s2.subrange(t + d, t + d + label.len()) =~= s1.subrange(t, t + label.len()));
    }
}

proof fn lemma_label_span_acc(s: Seq<char>, label: Seq<char>, i: int, acc: Option<(int, int)>)
    requires
        0 <= i,
    ensures
        label_span(s, label, i, acc) == or_else(label_span(s, label, i, None), acc),
    decreases s.len() - i,
{
    let e = line_end(s, i);
    lemma_line_end_ge(s, i);
    if e < s.len() {
        let lv = line_value(s, label, i, e);
        lemma_label_span_acc(s, label, e + 1, or_else(lv, acc));
        lemma_label_span_acc(s, label, e + 1, or_else(lv, None));
    }
}

proof fn lemma_line_end_prefix(a: Seq<char>, b: Seq<char>, i: int)
    requires
        0 <= i <= a.len(),
    ensures
        line_end(join_lines(a, b), i) == line_end(a, i),
        line_end(a, i) <= a.len(),
    decreases a.len() - i,
{
    let c = join_lines(a, b);
    if i < a.len() {
        assert(c[i] == a[i]);
        if a[i] != '\n' {
            lemma_line_end_prefix(a, b, i + 1);
        }
    } else {
        assert(c[i] == '\n');
    }
}

proof fn lemma_line_end_suffix(a: Seq<char>, b: Seq<char>, j: int)
    requires
        0 <= j <= b.len(),
    ensures
        line_end(join_lines(a, b), a.len() + 1 + j) == a.len() + 1 + line_end(b, j),
        line_end(b, j) <= b.len(),
    decreases b.len() - j,
{
    let c = join_lines(a, b);
    if j < b.len() {
        assert(c[a.len() + 1 + j] == b[j]);
        if b[j] != '\n' {
            lemma_line_end_suffix(a, b, j + 1);
        }
    }
}

proof fn lemma_label_span_prefix(a: Seq<char>, b: Seq<char>, label: Seq<char>, i: int, acc: Option<(int, int)>)
    requires
        0 <= i <= a.len(),
    ensures
        label_span(join_lines(a, b), label, i, acc) == label_span(
            join_lines(a, b),
            label,
            a.len() + 1 as int,
            label_span(a, label, i, acc),
        ),
    decreases a.len() - i,
{
    let c = join_lines(a, b);
    lemma_line_end_prefix(a, b, i);
    lemma_line_end_ge(a, i);
    let e = line_end(a, i);
    assert(agree(a, c, i, e, 0));
    lemma_line_value_shift(a, c, label, i, e, 0);
    let here = or_else(line_value(a, label, i, e), acc);
    if e < a.len() {
        lemma_label_span_prefix(a, b, label, e + 1, here);
    }
}

proof fn lemma_label_span_suffix(a: Seq<char>, b: Seq<char>, label: Seq<char>, j: int)
    requires
        0 <= j <= b.len(),
    ensures
        label_span(join_lines(a, b), label, a.len() + 1 + j, None) == shift_span(
            label_span(b, label, j, None),
            a.len() + 1 as int,
        ),
    decreases b.len() - j,
{
    let c = join_lines(a, b);
    let n1 = a.len() + 1 as int;
    lemma_line_end_suffix(a, b, j);
    lemma_line_end_ge(b, j);
    let e = line_end(b, j);
    assert(agree(b, c, j, e, n1));
    lemma_line_value_shift(b, c, label, j, e, n1);
    if e < b.len() {
        let lv = line_value(b, label, j, e);
        lemma_label_span_suffix(a, b, label, e + 1);
        lemma_label_span_acc(c, label, n1 + e + 1, shift_span(lv, n1));
        lemma_label_span_acc(b, label, e + 1, lv);
    }
}

/// A report joined from two parts gives each measurement from the second
/// part where that part gives it, and from the first part otherwise.
pub proof fn lemma_label_value_join(a: Seq<char>, b: Seq<char>, label: Seq<char>)
    ensures
        label_value(join_lines(a, b), label) == match label_value(b, label) {
            Some(v) => Some(v),
            None => label_value(a, label),
        },
{
    let c = join_lines(a, b);
    let n1 = a.len() + 1 as int;
    lemma_label_span_prefix(a, b, label, 0, None);
    lemma_label_span_acc(c, label, n1, label_span(a, label, 0, None));
    lemma_label_span_suffix(a, b, label, 0);
    lemma_label_span_bounds(a, label, 0, None);
    lemma_label_span_bounds(b, label, 0, None);
    match label_span(b, label, 0, None) {
        Some(sp) => {
            assert(c.subrange(sp.0 + n1, sp.1 + n1) =~= b.subrange(sp.0, sp.1));
        },
        None => {
            match label_span(a, label, 0, None) {
                Some(sp) => {
                    assert(c.subrange(sp.0, sp.1) =~= a.subrange(sp.0, sp.1));
                },
                None => {},
            }
        },
    }
}

proof fn lemma_line_end_no_newline(s: Seq<char>, i: int)
    requires
        0 <= i <= s.len(),
        no_newline(s),
    ensures
        line_end(s, i) == s.len(),
    decreases s.len() - i,
{
    if i < s.len() {
        lemma_line_end_no_newline(s, i + 1);
    }
}

/// A line that does not start with the label gives nothing for it.
pub proof fn lemma_unlabelled_line(l: Seq<char>, label: Seq<char>)
    requires
        no_newline(l),
        !line_has_label(l, label),
    ensures
        label_value(l, label) == None::<Seq<char>>,
{
    lemma_line_end_no_newline(l, 0);
}

/// Inserting a line that does not start with the label, before, between or
/// after the lines of a report, changes nothing of what the report gives
/// for that label.
pub proof fn lemma_unlabelled_lines_change_nothing(x: Seq<char>, l: Seq<char>, y: Seq<char>, label: Seq<char>)
    requires
        no_newline(l),
        !line_has_label(l, label),
    ensures
        label_value(join_lines(l, y), label) == label_value(y, label),
        label_value(join_lines(x, join_lines(l, y)), label) == label_value(join_lines(x, y), label),
        label_value(join_lines(x, l), label) == label_value(x, label),
{
    lemma_unlabelled_line(l, label);
    lemma_label_value_join(l, y, label);
    lemma_label_value_join(x, join_lines(l, y), label);
    lemma_label_value_join(x, y, label);
    lemma_label_value_join(x, l, label);
}

proof fn lemma_skip_white_ws_prefix(s: Seq<char>, i: int, j: int, e: int)
    requires
        i <= j <= e,
        all_white(s, i, j),
    ensures
        skip_white(s, i, e) == skip_white(s, j, e),
    decreases j - i,
{
    if i < j {
        assert(is_white_space(s[i]));
        lemma_skip_white_ws_prefix(s, i + 1, j, e);
    }
}

proof fn lemma_skip_white_extend(s: Seq<char>, i: int, m: int, e: int)
    requires
        i <= m <= e,
        skip_white(s, i, m) < m,
    ensures
        skip_white(s, i, e) == skip_white(s, i, m),
    decreases m - i,
{
    if i < m && is_white_space(s[i]) {
        lemma_skip_white_extend(s, i + 1, m, e);
    }
}

proof fn lemma_skip_white_all(s: Seq<char>, i: int, e: int)
    requires
        i <= e,
        skip_white(s, i, e) == e,
    ensures
        all_white(s, i, e),
    decreases e - i,
{
    if i < e {
        lemma_skip_white_all(s, i + 1, e);
    }
}

proof fn lemma_first_number_ws_prefix(s: Seq<char>, i: int, j: int, e: int)
    requires
        i <= j <= e,
        all_white(s, i, j),
    ensures
        first_number(s, i, e) == first_number(s, j, e),
    decreases j - i,
{
    if i < j {
        assert(is_white_space(s[i]));
        lemma_first_number_ws_prefix(s, i + 1, j, e);
    }
}

proof fn lemma_skip_word_tail(s: Seq<char>, i: int, m: int, e: int)
    requires
        i <= m <= e,
        all_white(s, m, e),
    ensures
        skip_word(s, i, e) == skip_word(s, i, m),
    decreases m - i,
{
    if i < m {
        if !is_white_space(s[i]) {
            lemma_skip_word_tail(s, i + 1, m, e);
        }
    } else if m < e {
        assert(is_white_space(s[m]));
    }
}

proof fn lemma_first_number_ws_tail(s: Seq<char>, i: int, m: int, e: int)
    requires
        i <= m <= e,
        all_white(s, m, e),
    ensures
        first_number(s, i, e) == first_number(s, i, m),
    decreases e - i,
{
    if i >= m {
        lemma_first_number_ws_prefix(s, i, e, e);
    } else if is_white_space(s[i]) {
        lemma_first_number_ws_tail(s, i + 1, m, e);
    } else {
        lemma_skip_word_tail(s, i, m, e);
        lemma_skip_word_ge(s, i, m);
        let b = skip_word(s, i, m);
        if !float_literal(s.subrange(i, b)) {
            lemma_first_number_ws_tail(s, b, m, e);
        }
    }
}

/// White space added at the start or the end of a line changes nothing of
/// what the line gives for a label that ends in a character other than
/// white space.
pub proof fn lemma_padded_line(w1: Seq<char>, l: Seq<char>, w2: Seq<char>, label: Seq<char>)
    requires
        no_newline(l),
        is_padding(w1),
        is_padding(w2),
        label.len() > 0,
        !is_white_space(label.last()),
    ensures
        label_value(w1 + l + w2, label) == label_value(l, label),
{
    let s = w1 + l + w2;
    let p = w1.len() as int;
    let n = l.len() as int;
    let m = p + n;
    let big_e = s.len() as int;
    assert forall|k: int| 0 <= k < s.len() implies s[k] != '\n' by {
        if k < p {
            assert(s[k] == w1[k]);
        } else if k < m {
            assert(s[k] == l[k - p]);
        } else {
            assert(s[k] == w2[k - m]);
        }
    }
    assert(all_white(s, 0, p)) by {
        assert forall|k: int| 0 <= k < p implies is_white_space(#[trigger] s[k]) by {
            assert(s[k] == w1[k]);
        }
    }
    assert(all_white(s, m, big_e)) by {
        assert forall|k: int| m <= k < big_e implies is_white_space(#[trigger] s[k]) by {
            assert(s[k] == w2[k - m]);
        }
    }
    assert(agree(l, s, 0, n, p)) by {
        assert forall|k: int| 0 <= k < n implies #[trigger] l[k] == s[k + p] by {
            assert(s[k + p] == l[k]);
        }
    }
    lemma_line_end_no_newline(s, 0);
    lemma_line_end_no_newline(l, 0);
    let t = skip_white(l, 0, n);
    lemma_skip_white_bounds(l, 0, n);
    lemma_skip_white_ws_prefix(s, 0, p, big_e);
    lemma_skip_white_shift(l, s, 0, n, p);
    lemma_first_number_ws_prefix(s, 0, p, big_e);
    lemma_first_number_ws_tail(s, p, m, big_e);
    lemma_first_number_shift(l, s, 0, n, p);
    lemma_first_number_bounds(l, 0, n);
    if t < n {
        lemma_skip_white_extend(s, p, m, big_e);
        let ts = t + p;
        assert(skip_white(s, 0, big_e) == ts);
        if t + label.len() <= n {
            assert(s.subrange(ts, ts + label.len()) =~= l.subrange(t, t + label.len()));
        } else if ts + label.len() <= big_e && s.subrange(ts, ts + label.len()) == label {
            let q = ts + label.len() - 1;
            assert(s.subrange(ts, ts + label.len())[label.len() - 1] == s[q]);
            assert(is_white_space(s[q]));
        }
        match first_number(l, 0, n) {
            Some(sp) => {
                assert(s.subrange(sp.0 + p, sp.1 + p) =~= l.subrange(sp.0, sp.1));
            },
            None => {},
        }
    } else {
        lemma_skip_white_all(l, 0, n);
        assert(all_white(s, p, big_e)) by {
            assert forall|k: int| p <= k < big_e implies is_white_space(#[trigger] s[k]) by {
                if k < m {
                    assert(l[k - p] == s[k - p + p]);
                    assert(is_white_space(l[k - p]));
                }
            }
        }
        lemma_skip_white_ws_prefix(s, p, big_e, big_e);
    }
}

/// White space added at the start or the end of any line of a report
/// changes nothing of what the report gives for a label that ends in a
/// character other than white space.
pub proof fn lemma_padding_changes_nothing(
    x: Seq<char>,
    l: Seq<char>,
    y: Seq<char>,
    w1: Seq<char>,
    w2: Seq<char>,
    label: Seq<char>,
)
    requires
        no_newline(l),
        is_padding(w1),
        is_padding(w2),
        label.len() > 0,
        !is_white_space(label.last()),
    ensures
        label_value(w1 + l + w2, label) == label_value(l, label),
        label_value(join_lines(w1 + l + w2, y), label) == label_value(join_lines(l, y), label),
        label_value(join_lines(x, join_lines(w1 + l + w2, y)), label) == label_value(
            join_lines(x, join_lines(l, y)),
            label,
        ),
        label_value(join_lines(x, w1 + l + w2), label) == label_value(join_lines(x, l), label),
{
    let padded = w1 + l + w2;
    lemma_padded_line(w1, l, w2, label);
    lemma_label_value_join(padded, y, label);
    lemma_label_value_join(l, y, label);
    lemma_label_value_join(x, join_lines(padded, y), label);
    lemma_label_value_join(x, join_lines(l, y), label);
    lemma_label_value_join(x, padded, label);
    lemma_label_value_join(x, l, label);
}

/// The lines `lines`, joined by line breaks into one report.
pub open spec fn join_all(lines: Seq<Seq<char>>) -> Seq<char>
    decreases lines.len(),
{
    if lines.len() == 0 {
        Seq::empty()
    } else if lines.len() == 1 {
        lines[0]
    } else {
        join_lines(join_all(lines.drop_last()), lines.last())
    }
}

/// `padded` is the line `l` with white space added at its start and end.
pub open spec fn is_padded_line(l: Seq<char>, padded: Seq<char>) -> bool {
    exists|w1: Seq<char>, w2: Seq<char>|
        is_padding(w1) && is_padding(w2) && padded == #[trigger] (w1 + l + w2)
}

/// The lines `noisy` are the lines `plain`, each possibly padded with white
/// space at its start and end, with any number of lines that do not start
/// with `label` inserted anywhere among them.
pub open spec fn edited_lines(plain: Seq<Seq<char>>, noisy: Seq<Seq<char>>, label: Seq<char>) -> bool
    decreases noisy.len(),
{
    if noisy.len() == 0 {
        plain.len() == 0
    } else {
        ||| (no_newline(noisy.last()) && !line_has_label(noisy.last(), label) && edited_lines(
            plain,
            noisy.drop_last(),
            label,
        ))
        ||| (plain.len() > 0 && is_padded_line(plain.last(), noisy.last()) && edited_lines(
            plain.drop_last(),
            noisy.drop_last(),
            label,
        ))
    }
}

pub open spec fn or_value(x: Option<Seq<char>>, y: Option<Seq<char>>) -> Option<Seq<char>> {
    match x {
        Some(v) => Some(v),
        None => y,
    }
}

proof fn lemma_label_value_join_all_step(lines: Seq<Seq<char>>, label: Seq<char>)
    requires
        lines.len() > 0,
        label.len() > 0,
    ensures
        label_value(join_all(lines), label) == or_value(
            label_value(lines.last(), label),
            label_value(join_all(lines.drop_last()), label),
        ),
{
    if lines.len() == 1 {
        let empty = Seq::<char>::empty();
        assert(join_all(lines.drop_last()) == empty);
        assert(line_end(empty, 0) == 0);
        assert(line_value(empty, label, 0, 0) == None::<(int, int)>);
        assert(label_value(empty, label) == None::<Seq<char>>);
    } else {
        lemma_label_value_join(join_all(lines.drop_last()), lines.last(), label);
    }
}

/// Any number of inserted lines that do not start with the label, and any
/// white space added at the start or end of any line, change nothing of what
/// the report gives for a label that ends in a character other than white
/// space.
pub proof fn lemma_edits_change_nothing(plain: Seq<Seq<char>>, noisy: Seq<Seq<char>>, label: Seq<char>)
    requires
        forall|k: int| 0 <= k < plain.len() ==> no_newline(#[trigger] plain[k]),
        edited_lines(plain, noisy, label),
        label.len() > 0,
        !is_white_space(label.last()),
    ensures
        label_value(join_all(noisy), label) == label_value(join_all(plain), label),
    decreases noisy.len(),
{
    if noisy.len() > 0 {
        lemma_label_value_join_all_step(noisy, label);
        let last = noisy.last();
        if no_newline(last) && !line_has_label(last, label) && edited_lines(plain, noisy.drop_last(), label) {
            lemma_unlabelled_line(last, label);
            lemma_edits_change_nothing(plain, noisy.drop_last(), label);
        } else {
            let l = plain.last();
            let rest = plain.drop_last();
            assert forall|k: int| 0 <= k < rest.len() implies no_newline(#[trigger] rest[k]) by {
                assert(rest[k] == plain[k]);
            }
            lemma_edits_change_nothing(rest, noisy.drop_last(), label);
            let (w1, w2) = choose|w1: Seq<char>, w2: Seq<char>|
                is_padding(w1) && is_padding(w2) && last == #[trigger] (w1 + l + w2);
            lemma_padded_line(w1, l, w2, label);
            lemma_label_value_join_all_step(plain, label);
        }
    }
}

} // verus!
