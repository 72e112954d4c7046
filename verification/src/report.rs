//! Diagnostic report: threshold-based status classification with
//! recommendations, and the styled terminal rendering of the results.

use vstd::prelude::*;
use vstd::string::StringExecFns;
use crate::protocol::{LatencyResults, TestResults};
use crate::render::{
    draw_box, fmt_ms, fmt_ms1, fmt_u64, pad_left, repeat_str, spec_dec, spec_draw_box, spec_ms,
    spec_ms1, spec_pad_left, spec_repeat,
};
use crate::types::{spec_color_code, Status};
use crate::viz::{percentile, percentile_index, sort_of, spec_sparkline, sparkline};

verus! {

/// Threshold policy over the averaged latency and jitter, both in
/// microseconds: above 50 ms average is `Red`; above 20 ms average or
/// above 10 ms jitter is `Yellow`; anything else is `Green`.
pub open spec fn spec_latency_status(avg_us: u64, jitter_us: u64) -> Status {
    if avg_us > 50000 {
        Status::Red
    } else if avg_us > 20000 || jitter_us > 10000 {
        Status::Yellow
    } else {
        Status::Green
    }
}

/// The recommendations that accompany each classification, in order.
pub open spec fn spec_latency_recs(avg_us: u64, jitter_us: u64) -> Seq<Seq<char>> {
    if avg_us > 50000 {
        seq![
            "High latency detected. Check network congestion."@,
            "Consider using wired connection instead of WiFi."@,
        ]
    } else if avg_us > 20000 || jitter_us > 10000 {
        if jitter_us > 10000 {
            seq![
                "Moderate latency or jitter detected."@,
                "Enable QoS on your router for smoother streaming."@,
            ]
        } else {
            seq!["Moderate latency or jitter detected."@]
        }
    } else {
        Seq::empty()
    }
}

/// Classifies one latency result and appends its recommendations.
pub fn analyze_latency(lat: &LatencyResults, recommendations: &mut Vec<String>) -> (r: Status)
    ensures
        r == spec_latency_status(lat.avg_us, lat.jitter_us),
        final(recommendations).deep_view() =~= old(recommendations).deep_view()
            + spec_latency_recs(lat.avg_us, lat.jitter_us),
{
    let ghost base = recommendations.deep_view();
    if lat.avg_us > 50000 {
        recommendations.push(String::from_str("High latency detected. Check network congestion."));
        recommendations.push(
            String::from_str("Consider using wired connection instead of WiFi."),
        );
        proof {
            assert(recommendations.deep_view() =~= base + spec_latency_recs(
                lat.avg_us,
                lat.jitter_us,
            ));
        }
        Status::Red
    } else if lat.avg_us > 20000 || lat.jitter_us > 10000 {
        recommendations.push(String::from_str("Moderate latency or jitter detected."));
        if lat.jitter_us > 10000 {
            recommendations.push(
                String::from_str("Enable QoS on your router for smoother streaming."),
            );
        }
        proof {
            assert(recommendations.deep_view() =~= base + spec_latency_recs(
                lat.avg_us,
                lat.jitter_us,
            ));
        }
        Status::Yellow
    } else {
        proof {
            assert(recommendations.deep_view() =~= base + spec_latency_recs(
                lat.avg_us,
                lat.jitter_us,
            ));
        }
        Status::Green
    }
}

/// Diagnostic report with analyzed results.
#[derive(Debug)]
pub struct DiagnosticReport {
    pub overall_status: Status,
    pub latency_status: Option<Status>,
    pub bandwidth_status: Option<Status>,
    pub video_status: Option<Status>,
    pub audio_status: Option<Status>,
    pub recommendations: Vec<String>,
    pub raw_results: TestResults,
}

impl DiagnosticReport {
    /// Builds the report from raw results: classifies the populated
    /// sub-tests, collects their recommendations in order, and takes
    /// the worst populated severity as the overall status (`Green`
    /// when none is populated).
    pub fn from_results(results: TestResults) -> (r: DiagnosticReport)
        ensures
            r.latency_status == match results@.latency {
                Some(l) => Some(spec_latency_status(l.avg_us, l.jitter_us)),
                None => None::<Status>,
            },
            r.bandwidth_status is None,
            r.video_status is None,
            r.audio_status is None,
            r.recommendations.deep_view() =~= match results@.latency {
                Some(l) => spec_latency_recs(l.avg_us, l.jitter_us),
                None => Seq::<Seq<char>>::empty(),
            },
            r.overall_status == match r.latency_status {
                Some(s) => s,
                None => Status::Green,
            },
            r.raw_results == results,
    {
        let mut recommendations: Vec<String> = Vec::new();
        let latency_status = match &results.latency {
            Some(lat) => Some(analyze_latency(lat, &mut recommendations)),
            None => None,
        };
        let bandwidth_status: Option<Status> = None;
        let video_status: Option<Status> = None;
        let audio_status: Option<Status> = None;
        let mut overall_status = Status::Green;
        if let Some(s) = latency_status {
            overall_status = overall_status.worse(s);
        }
        if let Some(s) = bandwidth_status {
            overall_status = overall_status.worse(s);
        }
        if let Some(s) = video_status {
            overall_status = overall_status.worse(s);
        }
        if let Some(s) = audio_status {
            overall_status = overall_status.worse(s);
        }
        DiagnosticReport {
            overall_status,
            latency_status,
            bandwidth_status,
            video_status,
            audio_status,
            recommendations,
            raw_results: results,
        }
    }
}

/// The status value as it appears in the report.
pub open spec fn spec_status_name(s: Status) -> Seq<char> {
    match s {
        Status::Green => "Green"@,
        Status::Yellow => "Yellow"@,
        Status::Red => "Red"@,
    }
}

/// The traffic light emoji of a status.
pub open spec fn spec_status_emoji(s: Status) -> Seq<char> {
    match s {
        Status::Green => "\u{1f7e2}"@,
        Status::Yellow => "\u{1f7e1}"@,
        Status::Red => "\u{1f534}"@,
    }
}

/// The status name wrapped in its ANSI color and a reset.
pub open spec fn spec_colored_status(s: Status) -> Seq<char> {
    spec_color_code(s) + spec_status_name(s) + "\x1b[0m"@
}

/// Nearest-rank percentile at spec level; 0 for an empty series.
pub open spec fn spec_percentile(s: Seq<u64>, p: int) -> u64 {
    if s.len() == 0 {
        0
    } else {
        sort_of(s)[percentile_index(s.len() as int, p)]
    }
}

/// The sparkline row: padded minimum, an axis tick, and the first 50
/// glyphs of the sparkline.
pub open spec fn spec_spark_row(l: crate::protocol::LatencyResultsV) -> Seq<char> {
    let sp = spec_sparkline(l.samples, 50);
    "  "@ + spec_pad_left(spec_ms1(l.min_us as int), 5) + " \u{2524}"@ + sp.take(
        if sp.len() <= 50 {
            sp.len() as int
        } else {
            50
        },
    )
}

/// The rows of the latency section, in order.
pub open spec fn spec_latency_lines(
    l: crate::protocol::LatencyResultsV,
    st: Status,
) -> Seq<Seq<char>> {
    let cyan = "\x1b[36m"@;
    let reset = "\x1b[0m"@;
    seq![
        spec_status_emoji(st) + " Network Latency: "@ + spec_colored_status(st),
        Seq::<char>::empty(),
        spec_spark_row(l),
        "  "@ + spec_pad_left(spec_ms1(l.avg_us as int), 5) + " \u{2524}"@ + spec_repeat(
            seq![' '],
            50,
        ),
        "  "@ + spec_pad_left(spec_ms1(l.max_us as int), 5) + " \u{2524}"@,
        "         \u{2514}"@ + spec_repeat(seq!['\u{2500}'], 50),
        "           "@ + cyan + "Min"@ + reset + "  "@ + cyan + "Avg"@ + reset + "  "@ + cyan
            + "P50"@ + reset + "  "@ + cyan + "P95"@ + reset + "  "@ + cyan + "Max"@ + reset,
        Seq::<char>::empty(),
        "  Min: "@ + spec_ms(l.min_us as int) + "ms \u{2502} Max: "@ + spec_ms(l.max_us as int)
            + "ms \u{2502} Avg: "@ + spec_ms(l.avg_us as int) + "ms"@,
        "  P50: "@ + spec_ms(spec_percentile(l.samples, 50) as int) + "ms \u{2502} P95: "@
            + spec_ms(spec_percentile(l.samples, 95) as int) + "ms \u{2502} Jitter: "@ + spec_ms(
            l.jitter_us as int,
        ) + "ms"@,
        "  Samples: "@ + spec_dec(l.samples.len() as int) + " \u{2502} Loss: "@ + spec_dec(
            l.packet_loss_percent as int,
        ) + ".0%"@,
        Seq::<char>::empty(),
    ]
}

/// One recommendation row: an indented colored check mark, then the
/// recommendation.
pub open spec fn spec_rec_row(rec: Seq<char>) -> Seq<char> {
    "  "@ + "\x1b[32m"@ + "\u{2713}"@ + "\x1b[0m"@ + " "@ + rec
}

/// The recommendation section: a colored header, one row per
/// recommendation, and a blank row; empty when there are none.
pub open spec fn spec_rec_lines(recs: Seq<Seq<char>>) -> Seq<Seq<char>> {
    if recs.len() == 0 {
        Seq::empty()
    } else {
        seq!["\x1b[34m"@ + "\u{1f4a1}"@ + "\x1b[0m"@ + " Recommendations:"@] + Seq::new(
            recs.len(),
            |i: int| spec_rec_row(recs[i]),
        ) + seq![Seq::<char>::empty()]
    }
}

/// The content rows of the rendered report, in order: the overall
/// status, the latency section when latency results are present, and
/// the recommendation section when recommendations exist.
pub open spec fn spec_report_lines(r: DiagnosticReport) -> Seq<Seq<char>> {
    seq![
        spec_status_emoji(r.overall_status) + " Overall Status: "@ + spec_colored_status(
            r.overall_status,
        ),
        Seq::<char>::empty(),
    ] + (match r.raw_results@.latency {
        Some(l) => spec_latency_lines(
            l,
            match r.latency_status {
                Some(s) => s,
                None => Status::Green,
            },
        ),
        None => Seq::<Seq<char>>::empty(),
    }) + spec_rec_lines(r.recommendations.deep_view())
}

/// The whole rendered report: the content rows boxed at width 62 under
/// the report title.
pub open spec fn spec_report_text(r: DiagnosticReport) -> Seq<char> {
    spec_draw_box("CHEQUER DIAGNOSTIC REPORT"@, spec_report_lines(r), 62)
}

fn status_name(s: Status) -> (r: &'static str)
    ensures
        r@ == spec_status_name(s),
{
    match s {
        Status::Green => "Green",
        Status::Yellow => "Yellow",
        Status::Red => "Red",
    }
}

fn status_emoji(s: Status) -> (r: &'static str)
    ensures
        r@ == spec_status_emoji(s),
{
    match s {
        Status::Green => "\u{1f7e2}",
        Status::Yellow => "\u{1f7e1}",
        Status::Red => "\u{1f534}",
    }
}

fn colored_status(s: Status) -> (r: String)
    ensures
        r@ =~= spec_colored_status(s),
{
    let mut out = String::from_str(s.color_code());
    out.append(status_name(s));
    out.append("\x1b[0m");
    out
}

fn push_line(lines: &mut Vec<String>, row: String)
    ensures
        final(lines).deep_view() =~= old(lines).deep_view().push(row@),
        final(lines)@.len() == old(lines)@.len() + 1,
{
    lines.push(row);
    proof {
        assert(lines.deep_view() =~= old(lines).deep_view().push(lines@.last()@));
    }
}

impl DiagnosticReport {
    /// Builds the content rows exactly as `spec_report_lines` lists
    /// them.
    #[verifier::rlimit(100)]
    fn report_lines(&self) -> (r: Vec<String>)
        ensures
            r.deep_view() =~= spec_report_lines(*self),
    {
        let mut lines: Vec<String> = Vec::new();
        let mut head = String::from_str(status_emoji(self.overall_status));
        head.append(" Overall Status: ");
        let colored = colored_status(self.overall_status);
        head.append(colored.as_str());
        push_line(&mut lines, head);
        push_line(&mut lines, String::new());
        let ghost opening = seq![
            spec_status_emoji(self.overall_status) + " Overall Status: "@ + spec_colored_status(
                self.overall_status,
            ),
            Seq::<char>::empty(),
        ];
        proof {
            assert(lines.deep_view() =~= opening);
        }
        match &self.raw_results.latency {
            Some(lat) => {
                let st = match self.latency_status {
                    Some(s) => s,
                    None => Status::Green,
                };
                let mut row = String::from_str(status_emoji(st));
                row.append(" Network Latency: ");
                let colored = colored_status(st);
                row.append(colored.as_str());
                push_line(&mut lines, row);
                push_line(&mut lines, String::new());
                let spark = sparkline(&lat.samples, 50);
                let sl = spark.as_str().unicode_len();
                let cut = if sl <= 50 {
                    sl
                } else {
                    50
                };
                let spark50 = spark.as_str().substring_char(0, cut);
                let mut row = String::from_str("  ");
                let m = pad_left(fmt_ms1(lat.min_us), 5);
                row.append(m.as_str());
                row.append(" \u{2524}");
                row.append(spark50);
                push_line(&mut lines, row);
                let mut row = String::from_str("  ");
                let m = pad_left(fmt_ms1(lat.avg_us), 5);
                row.append(m.as_str());
                row.append(" \u{2524}");
                let blanks = repeat_str(" ", 50);
                row.append(blanks.as_str());
                push_line(&mut lines, row);
                let mut row = String::from_str("  ");
                let m = pad_left(fmt_ms1(lat.max_us), 5);
                row.append(m.as_str());
                row.append(" \u{2524}");
                push_line(&mut lines, row);
                let mut row = String::from_str("         \u{2514}");
                let rule = repeat_str("\u{2500}", 50);
                row.append(rule.as_str());
                push_line(&mut lines, row);
                let mut row = String::from_str("           ");
                row.append("\x1b[36m");
                row.append("Min");
                row.append("\x1b[0m");
                row.append("  ");
                row.append("\x1b[36m");
                row.append("Avg");
                row.append("\x1b[0m");
                row.append("  ");
                row.append("\x1b[36m");
                row.append("P50");
                row.append("\x1b[0m");
                row.append("  ");
                row.append("\x1b[36m");
                row.append("P95");
                row.append("\x1b[0m");
                row.append("  ");
                row.append("\x1b[36m");
                row.append("Max");
                row.append("\x1b[0m");
                push_line(&mut lines, row);
                push_line(&mut lines, String::new());
                let mut row = String::from_str("  Min: ");
                let m = fmt_ms(lat.min_us);
                row.append(m.as_str());
                row.append("ms \u{2502} Max: ");
                let m = fmt_ms(lat.max_us);
                row.append(m.as_str());
                row.append("ms \u{2502} Avg: ");
                let m = fmt_ms(lat.avg_us);
                row.append(m.as_str());
                row.append("ms");
                push_line(&mut lines, row);
                let p50 = percentile(&lat.samples, 50);
                let p95 = percentile(&lat.samples, 95);
                let mut row = String::from_str("  P50: ");
                let m = fmt_ms(p50);
                row.append(m.as_str());
                row.append("ms \u{2502} P95: ");
                let m = fmt_ms(p95);
                row.append(m.as_str());
                row.append("ms \u{2502} Jitter: ");
                let m = fmt_ms(lat.jitter_us);
                row.append(m.as_str());
                row.append("ms");
                push_line(&mut lines, row);
                let mut row = String::from_str("  Samples: ");
                let m = fmt_u64(lat.samples.len() as u64);
                row.append(m.as_str());
                row.append(" \u{2502} Loss: ");
                let m = fmt_u64(lat.packet_loss_percent);
                row.append(m.as_str());
                row.append(".0%");
                push_line(&mut lines, row);
                push_line(&mut lines, String::new());
                proof {
                    reveal_strlit(" ");
                    reveal_strlit("\u{2500}");
                    assert(" "@ =~= seq![' ']);
                    assert("\u{2500}"@ =~= seq!['\u{2500}']);
                    assert(lines.deep_view() =~= opening + spec_latency_lines(lat@, st));
                }
            },
            None => {},
        }
        proof {
            assert(lines.deep_view() =~= opening + (match self.raw_results@.latency {
                Some(l) => spec_latency_lines(
                    l,
                    match self.latency_status {
                        Some(s) => s,
                        None => Status::Green,
                    },
                ),
                None => Seq::<Seq<char>>::empty(),
            }));
        }
        let ghost before_recs = lines.deep_view();
        if self.recommendations.len() > 0 {
            let mut row = String::from_str("\x1b[34m");
            row.append("\u{1f4a1}");
            row.append("\x1b[0m");
            row.append(" Recommendations:");
            push_line(&mut lines, row);
            let mut i: usize = 0;
            while i < self.recommendations.len()
                invariant
                    i <= self.recommendations@.len(),
                    lines.deep_view() =~= before_recs + seq![
                        "\x1b[34m"@ + "\u{1f4a1}"@ + "\x1b[0m"@ + " Recommendations:"@,
                    ] + Seq::new(
                        i as nat,
                        |j: int| spec_rec_row(self.recommendations.deep_view()[j]),
                    ),
                decreases self.recommendations@.len() - i,
            {
                let mut row = String::from_str("  ");
                row.append("\x1b[32m");
                row.append("\u{2713}");
                row.append("\x1b[0m");
                row.append(" ");
                row.append(self.recommendations[i].as_str());
                push_line(&mut lines, row);
                proof {
                    assert(lines.deep_view() =~= before_recs + seq![
                        "\x1b[34m"@ + "\u{1f4a1}"@ + "\x1b[0m"@ + " Recommendations:"@,
                    ] + Seq::new(
                        (i + 1) as nat,
                        |j: int| spec_rec_row(self.recommendations.deep_view()[j]),
                    ));
                }
                i = i + 1;
            }
            push_line(&mut lines, String::new());
        }
        proof {
            assert(lines.deep_view() =~= spec_report_lines(*self));
        }
        lines
    }

    /// Renders the report, with colors, as the boxed text that the
    /// terminal shows.
    pub fn render_terminal(&self) -> (r: String)
        ensures
            r@ =~= spec_report_text(*self),
    {
        proof {
            reveal_strlit("CHEQUER DIAGNOSTIC REPORT");
        }
        let lines = self.report_lines();
        draw_box("CHEQUER DIAGNOSTIC REPORT", lines, 62)
    }
}

} // verus!
