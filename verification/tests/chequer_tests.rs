use chequer::codec::{decode_message, encode_frame, encode_message, parse_frame_len};
use chequer::host::{host_action, HostAction, ResultStore};
use chequer::network::validate_ip_port;
use chequer::probe::{Client, ProbeSession};
use chequer::protocol::{
    AudioResults, BandwidthResults, LatencyResults, Message, TestResults, VideoResults,
};
use chequer::report::DiagnosticReport;
use chequer::stats::compute_latency_results;
use chequer::types::{DiagError, Status, TestConfig};
use chequer::viz::{histogram, percentile, sparkline};

fn latency(avg_us: u64, jitter_us: u64) -> LatencyResults {
    LatencyResults {
        min_us: avg_us,
        max_us: avg_us,
        avg_us,
        jitter_us,
        packet_loss_percent: 0,
        samples: vec![avg_us],
    }
}

fn results_with(lat: Option<LatencyResults>) -> TestResults {
    TestResults { latency: lat, bandwidth: None, video: None, audio: None }
}

#[test]
fn test_validate_ip_port() {
    assert!(validate_ip_port("127.0.0.1:7777").is_ok());
    assert!(validate_ip_port("192.168.1.100:8080").is_ok());
    assert!(validate_ip_port("localhost:7777").is_ok());
    assert!(validate_ip_port("invalid").is_err());
}

#[test]
fn test_sparkline() {
    let data: Vec<u64> = vec![1, 2, 3, 4, 5];
    let spark = sparkline(&data, 10);
    assert!(!spark.is_empty());
}

#[test]
fn test_percentile() {
    let data: Vec<u64> = vec![1, 2, 3, 4, 5, 6, 7, 8, 9, 10];
    assert_eq!(percentile(&data, 50), 6);
    assert_eq!(percentile(&data, 95), 10);
}

#[test]
fn test_message_serialization() {
    let ping = Message::Ping { timestamp: 1700000000123456 };
    let bytes = encode_message(&ping);
    let decoded = decode_message(&bytes).unwrap();
    match decoded {
        Message::Ping { .. } => (),
        _ => panic!("Wrong message type"),
    }
}

#[test]
fn codec_round_trip_every_variant() {
    let full = TestResults {
        latency: Some(LatencyResults {
            min_us: 900,
            max_us: 2500,
            avg_us: 1500,
            jitter_us: 400,
            packet_loss_percent: 0,
            samples: vec![900, 1100, 2500, 1500],
        }),
        bandwidth: Some(BandwidthResults { download_kbps: 95000, upload_kbps: 20000 }),
        video: Some(VideoResults {
            supported_codecs: vec![String::from("h264"), String::from("av1")],
            decode_fps: Some(60),
        }),
        audio: Some(AudioResults {
            output_devices: vec![String::from("speakers")],
            sample_rate: Some(48000),
        }),
    };
    let messages = vec![
        Message::Ping { timestamp: 42 },
        Message::Pong { timestamp: u64::MAX },
        Message::TestResults { results: full },
        Message::TestResults { results: results_with(None) },
        Message::Error { message: String::from("h\u{e9}llo \u{2192} world") },
    ];
    for m in messages {
        let bytes = encode_message(&m);
        let decoded = decode_message(&bytes).unwrap();
        assert_eq!(decoded, m);
    }
}

#[test]
fn codec_rejects_malformed_input() {
    assert_eq!(decode_message(&vec![]), Err(DiagError::Protocol));
    assert_eq!(decode_message(&vec![9]), Err(DiagError::Protocol));
    assert_eq!(decode_message(&vec![1, 0, 0]), Err(DiagError::Protocol));
    let mut bytes = encode_message(&Message::Ping { timestamp: 7 });
    bytes.push(0);
    assert_eq!(decode_message(&bytes), Err(DiagError::Protocol));
}

#[test]
fn framing_length_prefix_and_bound() {
    let payload = encode_message(&Message::Ping { timestamp: 5 });
    let framed = encode_frame(&payload);
    assert_eq!(framed.len(), payload.len() + 4);
    assert_eq!(
        u32::from_be_bytes([framed[0], framed[1], framed[2], framed[3]]) as usize,
        payload.len()
    );
    assert_eq!(parse_frame_len(&framed[..4].to_vec()), Ok(payload.len()));
    let oversized = vec![0xff, 0xff, 0xff, 0xff];
    assert_eq!(parse_frame_len(&oversized), Err(DiagError::Protocol));
}

#[test]
fn stats_exact_values() {
    let samples: Vec<u64> = vec![10, 20, 30];
    let l = compute_latency_results(&samples).unwrap();
    assert_eq!(l.min_us, 10);
    assert_eq!(l.max_us, 30);
    assert_eq!(l.avg_us, 20);
    // population variance = ((10-20)^2 + 0 + (30-20)^2) / 3 = 66; isqrt = 8
    assert_eq!(l.jitter_us, 8);
    assert_eq!(l.packet_loss_percent, 0);
    assert_eq!(l.samples, samples);
    assert!(l.min_us <= l.avg_us && l.avg_us <= l.max_us);
}

#[test]
fn stats_reject_empty() {
    let samples: Vec<u64> = vec![];
    assert_eq!(compute_latency_results(&samples), Err(DiagError::InsufficientSamples));
}

#[test]
fn status_thresholds() {
    // (avg=10ms, jitter=0) -> Green
    let r = DiagnosticReport::from_results(results_with(Some(latency(10_000, 0))));
    assert_eq!(r.latency_status, Some(Status::Green));
    assert_eq!(r.overall_status, Status::Green);
    assert!(r.recommendations.is_empty());
    // (avg=25ms, jitter=0) -> Yellow
    let r = DiagnosticReport::from_results(results_with(Some(latency(25_000, 0))));
    assert_eq!(r.latency_status, Some(Status::Yellow));
    assert_eq!(r.overall_status, Status::Yellow);
    assert_eq!(r.recommendations, vec![String::from("Moderate latency or jitter detected.")]);
    // (avg=60ms, jitter=0) -> Red
    let r = DiagnosticReport::from_results(results_with(Some(latency(60_000, 0))));
    assert_eq!(r.latency_status, Some(Status::Red));
    assert_eq!(r.overall_status, Status::Red);
    assert_eq!(
        r.recommendations,
        vec![
            String::from("High latency detected. Check network congestion."),
            String::from("Consider using wired connection instead of WiFi."),
        ]
    );
    // (avg=15ms, jitter=15ms) -> Yellow with the QoS recommendation
    let r = DiagnosticReport::from_results(results_with(Some(latency(15_000, 15_000))));
    assert_eq!(r.latency_status, Some(Status::Yellow));
    assert_eq!(
        r.recommendations,
        vec![
            String::from("Moderate latency or jitter detected."),
            String::from("Enable QoS on your router for smoother streaming."),
        ]
    );
}

#[test]
fn report_without_latency_is_green() {
    let r = DiagnosticReport::from_results(results_with(None));
    assert_eq!(r.latency_status, None);
    assert_eq!(r.overall_status, Status::Green);
    assert!(r.recommendations.is_empty());
}

#[test]
fn probe_session_all_matched_reaches_count() {
    let config = TestConfig {
        latency_samples: 5,
        latency_interval_ms: 0,
        bandwidth_duration_secs: 0,
    };
    let mut session = ProbeSession::new(&config);
    let mut ts: u64 = 1000;
    while session.more_probes() {
        let reply = Message::Pong { timestamp: ts };
        let matched = session.on_response(ts, &reply, 1500).unwrap();
        assert!(matched);
        ts += 1;
    }
    assert_eq!(session.samples.len(), 5);
    assert_eq!(session.mismatches, 0);
    let l = session.finish().unwrap();
    assert_eq!(l.samples.len(), 5);
    assert_eq!(l.avg_us, 1500);
}

#[test]
fn probe_session_discards_mismatched_pong() {
    let config = TestConfig {
        latency_samples: 3,
        latency_interval_ms: 0,
        bandwidth_duration_secs: 0,
    };
    let mut session = ProbeSession::new(&config);
    let wrong = Message::Pong { timestamp: 999 };
    assert_eq!(session.on_response(1, &wrong, 100), Ok(false));
    let right = Message::Pong { timestamp: 2 };
    assert_eq!(session.on_response(2, &right, 100), Ok(true));
    let unexpected = Message::Ping { timestamp: 3 };
    assert_eq!(session.on_response(3, &unexpected, 100), Err(DiagError::UnexpectedMessage));
    assert_eq!(session.samples.len(), 1);
    assert_eq!(session.mismatches, 1);
}

#[test]
fn client_configuration() {
    let client = Client::new(String::from("example:7777"));
    assert_eq!(client.host_addr, String::from("example:7777"));
    assert_eq!(client.config.latency_samples, 100);
    assert_eq!(client.config.latency_interval_ms, 10);
    let client = client.with_config(TestConfig {
        latency_samples: 10,
        latency_interval_ms: 5,
        bandwidth_duration_secs: 0,
    });
    assert_eq!(client.config.latency_samples, 10);
    assert_eq!(client.config.latency_interval_ms, 5);
}

#[test]
fn host_echoes_ping_and_stores_results() {
    match host_action(Message::Ping { timestamp: 77 }) {
        HostAction::Reply(Message::Pong { timestamp }) => assert_eq!(timestamp, 77),
        _ => panic!("Ping must be answered with a Pong"),
    }
    let r = results_with(Some(latency(1000, 10)));
    match host_action(Message::TestResults { results: r.clone() }) {
        HostAction::Store(stored) => assert_eq!(stored, r),
        _ => panic!("results must be stored"),
    }
    assert!(matches!(host_action(Message::Pong { timestamp: 1 }), HostAction::LogUnexpected));
    match host_action(Message::Error { message: String::from("boom") }) {
        HostAction::LogError(text) => assert_eq!(text, String::from("boom")),
        _ => panic!("peer errors are logged"),
    }
}

#[test]
fn store_keeps_both_results_whatever_the_order() {
    let a = results_with(Some(latency(1000, 1)));
    let b = results_with(Some(latency(2000, 2)));
    let mut first = ResultStore::new();
    first.push(a.clone());
    first.push(b.clone());
    assert_eq!(first.len(), 2);
    let mut second = ResultStore::new();
    second.push(b.clone());
    second.push(a.clone());
    assert_eq!(second.len(), 2);
    for store in [&first, &second] {
        let entries = store.get_results();
        assert!(entries.contains(&a));
        assert!(entries.contains(&b));
    }
    assert_eq!(first.get(0), &a);
    assert_eq!(first.get(1), &b);
}

const BLOCKS: [char; 8] = [
    '\u{2581}', '\u{2582}', '\u{2583}', '\u{2584}', '\u{2585}', '\u{2586}', '\u{2587}',
    '\u{2588}',
];

fn intensity(c: char) -> usize {
    BLOCKS.iter().position(|&b| b == c).expect("sparkline glyph")
}

#[test]
fn sparkline_increasing_never_decreases() {
    let data: Vec<u64> = vec![1, 3, 7, 12, 20, 33, 54, 88];
    let spark = sparkline(&data, 50);
    let levels: Vec<usize> = spark.chars().map(intensity).collect();
    assert_eq!(levels.len(), data.len());
    for w in levels.windows(2) {
        assert!(w[0] <= w[1]);
    }
    assert_eq!(*levels.first().unwrap(), 0);
    assert_eq!(*levels.last().unwrap(), 7);
}

#[test]
fn sparkline_constant_is_mid_glyph() {
    let data: Vec<u64> = vec![5, 5, 5, 5, 5, 5, 5];
    let spark = sparkline(&data, 50);
    assert_eq!(spark.chars().count(), data.len());
    assert!(spark.chars().all(|c| c == '\u{2585}'));
}

#[test]
fn sparkline_downsamples_long_series() {
    let data: Vec<u64> = (0..100).collect();
    let spark = sparkline(&data, 50);
    assert_eq!(spark.chars().count(), 50);
}

#[test]
fn sparkline_constant_long_series_stays_mid_glyph() {
    let data: Vec<u64> = vec![7; 120];
    let spark = sparkline(&data, 50);
    // chunk size 120/50 = 2, so ceil(120/2) = 60 rendered points
    assert_eq!(spark.chars().count(), 60);
    assert!(spark.chars().all(|c| c == '\u{2585}'));
}

#[test]
fn sparkline_increasing_long_series_never_decreases() {
    let data: Vec<u64> = (0..200).collect();
    let spark = sparkline(&data, 50);
    let levels: Vec<usize> = spark.chars().map(intensity).collect();
    for w in levels.windows(2) {
        assert!(w[0] <= w[1]);
    }
}

#[test]
fn sparkline_empty_is_empty() {
    let data: Vec<u64> = vec![];
    assert_eq!(sparkline(&data, 50), String::new());
}

#[test]
fn percentile_edge_cases() {
    let one: Vec<u64> = vec![9];
    assert_eq!(percentile(&one, 0), 9);
    assert_eq!(percentile(&one, 100), 9);
    let unsorted: Vec<u64> = vec![30, 10, 20];
    assert_eq!(percentile(&unsorted, 0), 10);
    assert_eq!(percentile(&unsorted, 100), 30);
    let empty: Vec<u64> = vec![];
    assert_eq!(percentile(&empty, 50), 0);
}

#[test]
fn histogram_shapes() {
    let empty: Vec<u64> = vec![];
    assert!(histogram(&empty, 4, 10).is_empty());
    let data: Vec<u64> = vec![1000, 1000, 5000, 9000];
    assert!(histogram(&data, 0, 10).is_empty());
    let rows = histogram(&data, 2, 10);
    assert_eq!(rows.len(), 2);
    assert!(rows[0].contains('\u{2524}'));
    let flat: Vec<u64> = vec![4, 4, 4];
    assert_eq!(histogram(&flat, 3, 10), vec![String::from("All values identical")]);
}

#[test]
fn render_terminal_draws_the_box() {
    let r = DiagnosticReport::from_results(results_with(Some(LatencyResults {
        min_us: 900,
        max_us: 2500,
        avg_us: 1500,
        jitter_us: 400,
        packet_loss_percent: 0,
        samples: vec![900, 1100, 2500, 1500],
    })));
    let text = r.render_terminal();
    assert!(text.starts_with('\u{2554}'));
    assert!(text.ends_with('\u{255d}'));
    assert!(text.contains("CHEQUER DIAGNOSTIC REPORT"));
    assert!(text.contains("Overall Status"));
    assert!(text.contains("Samples: 4"));
    assert!(text.contains("Min: 0.90ms"));
}

#[test]
fn status_codes_and_severity() {
    assert_eq!(Status::Green.color_code(), "\x1b[32m");
    assert_eq!(Status::Yellow.color_code(), "\x1b[33m");
    assert_eq!(Status::Red.color_code(), "\x1b[31m");
    assert_eq!(Status::reset_code(), "\x1b[0m");
    assert_eq!(Status::Green.worse(Status::Red), Status::Red);
    assert_eq!(Status::Yellow.worse(Status::Green), Status::Yellow);
}
