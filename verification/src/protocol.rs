//! Message schema shared by the two roles, together with ghost views.
//!
//! Latencies are carried as whole microseconds so that statistics and
//! thresholds are exact integer arithmetic; bandwidth figures are whole
//! kilobits per second for the same reason.

use vstd::prelude::*;

verus! {

/// Network latency test results. All durations are microseconds.
#[derive(Debug, Clone, PartialEq)]
pub struct LatencyResults {
    pub min_us: u64,
    pub max_us: u64,
    pub avg_us: u64,
    pub jitter_us: u64,
    /// Always zero over a reliable, ordered transport.
    pub packet_loss_percent: u64,
    /// Per-probe round-trip times, in probe order.
    pub samples: Vec<u64>,
}

/// Bandwidth test results, in kilobits per second.
#[derive(Debug, Clone, PartialEq)]
pub struct BandwidthResults {
    pub download_kbps: u64,
    pub upload_kbps: u64,
}

/// Video codec and performance results.
#[derive(Debug, Clone, PartialEq)]
pub struct VideoResults {
    pub supported_codecs: Vec<String>,
    pub decode_fps: Option<u64>,
}

/// Audio system results.
#[derive(Debug, Clone, PartialEq)]
pub struct AudioResults {
    pub output_devices: Vec<String>,
    pub sample_rate: Option<u32>,
}

/// Collection of test results; only latency is populated today.
#[derive(Debug, Clone, PartialEq)]
pub struct TestResults {
    pub latency: Option<LatencyResults>,
    pub bandwidth: Option<BandwidthResults>,
    pub video: Option<VideoResults>,
    pub audio: Option<AudioResults>,
}

/// Message types exchanged between client and host. The timestamp in
/// `Ping`/`Pong` is both a payload and a correlation token: a `Pong` is
/// evidence of a completed round trip only if its timestamp equals the
/// timestamp of the most recently sent `Ping` exactly.
#[derive(Debug, Clone, PartialEq)]
pub enum Message {
    /// Ping request with timestamp (microseconds since the epoch).
    Ping { timestamp: u64 },
    /// Pong response echoing the original timestamp.
    Pong { timestamp: u64 },
    /// Test results sent from client to host.
    TestResults { results: TestResults },
    /// Error message.
    Error { message: String },
}

/// Ghost view of `LatencyResults`.
pub struct LatencyResultsV {
    pub min_us: u64,
    pub max_us: u64,
    pub avg_us: u64,
    pub jitter_us: u64,
    pub packet_loss_percent: u64,
    pub samples: Seq<u64>,
}

/// Ghost view of `BandwidthResults`.
pub struct BandwidthResultsV {
    pub download_kbps: u64,
    pub upload_kbps: u64,
}

/// Ghost view of `VideoResults`.
pub struct VideoResultsV {
    pub supported_codecs: Seq<Seq<char>>,
    pub decode_fps: Option<u64>,
}

/// Ghost view of `AudioResults`.
pub struct AudioResultsV {
    pub output_devices: Seq<Seq<char>>,
    pub sample_rate: Option<u32>,
}

/// Ghost view of `TestResults`.
pub struct TestResultsV {
    pub latency: Option<LatencyResultsV>,
    pub bandwidth: Option<BandwidthResultsV>,
    pub video: Option<VideoResultsV>,
    pub audio: Option<AudioResultsV>,
}

/// Ghost view of `Message`.
pub enum MessageV {
    Ping { timestamp: u64 },
    Pong { timestamp: u64 },
    TestResults { results: TestResultsV },
    Error { message: Seq<char> },
}

impl View for LatencyResults {
    type V = LatencyResultsV;

    open spec fn view(&self) -> LatencyResultsV {
        LatencyResultsV {
            min_us: self.min_us,
            max_us: self.max_us,
            avg_us: self.avg_us,
            jitter_us: self.jitter_us,
            packet_loss_percent: self.packet_loss_percent,
            samples: self.samples@,
        }
    }
}

impl View for BandwidthResults {
    type V = BandwidthResultsV;

    open spec fn view(&self) -> BandwidthResultsV {
        BandwidthResultsV { download_kbps: self.download_kbps, upload_kbps: self.upload_kbps }
    }
}

impl View for VideoResults {
    type V = VideoResultsV;

    open spec fn view(&self) -> VideoResultsV {
        VideoResultsV {
            supported_codecs: self.supported_codecs.deep_view(),
            decode_fps: self.decode_fps,
        }
    }
}

impl View for AudioResults {
    type V = AudioResultsV;

    open spec fn view(&self) -> AudioResultsV {
        AudioResultsV { output_devices: self.output_devices.deep_view(), sample_rate: self.sample_rate }
    }
}

impl View for TestResults {
    type V = TestResultsV;

    open spec fn view(&self) -> TestResultsV {
        TestResultsV {
            latency: match self.latency {
                Some(l) => Some(l@),
                None => None,
            },
            bandwidth: match self.bandwidth {
                Some(b) => Some(b@),
                None => None,
            },
            video: match self.video {
                Some(v) => Some(v@),
                None => None,
            },
            audio: match self.audio {
                Some(a) => Some(a@),
                None => None,
            },
        }
    }
}

impl View for Message {
    type V = MessageV;

    open spec fn view(&self) -> MessageV {
        match self {
            Message::Ping { timestamp } => MessageV::Ping { timestamp: *timestamp },
            Message::Pong { timestamp } => MessageV::Pong { timestamp: *timestamp },
            Message::TestResults { results } => MessageV::TestResults { results: results@ },
            Message::Error { message } => MessageV::Error { message: message@ },
        }
    }
}

} // verus!
