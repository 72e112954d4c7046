//! Client-side probing: configuration carrier and the strictly
//! sequential probe state machine. The surrounding program performs the
//! socket sends, receives and sleeps; every decision about a response
//! is made here.

use vstd::prelude::*;
use crate::protocol::{LatencyResults, Message, MessageV};
use crate::stats::{
    compute_latency_results, is_isqrt, samples_bounded, spec_avg, spec_max, spec_min,
    spec_variance, MAX_SAMPLE_US,
};
use crate::types::{DiagError, TestConfig};

verus! {

/// Client agent that connects to a host and runs diagnostics.
pub struct Client {
    pub host_addr: String,
    pub config: TestConfig,
}

impl Client {
    /// Creates a client for the given host address with the stock
    /// configuration.
    pub fn new(host_addr: String) -> (r: Self)
        ensures
            r.host_addr == host_addr,
            r.config == (TestConfig {
                latency_samples: 100,
                latency_interval_ms: 10,
                bandwidth_duration_secs: 10,
            }),
    {
        Client { host_addr, config: TestConfig::default() }
    }

    /// Replaces the test parameters.
    pub fn with_config(self, config: TestConfig) -> (r: Self)
        ensures
            r.host_addr == self.host_addr,
            r.config == config,
    {
        Client { host_addr: self.host_addr, config }
    }
}

/// One latency-probing session, strictly sequential: a probe is sent,
/// its response is judged, and only then may the next probe go out.
/// `sent` counts judged probes, `mismatches` the Pongs whose timestamp
/// did not equal the probe's, so `samples` can fall short of
/// `sample_count` only by `mismatches`.
pub struct ProbeSession {
    pub sample_count: usize,
    pub sent: usize,
    pub mismatches: usize,
    pub samples: Vec<u64>,
}

impl ProbeSession {
    /// Session bookkeeping is consistent: every judged probe either
    /// produced a sample or was counted as a mismatch.
    pub open spec fn wf(&self) -> bool {
        &&& self.samples@.len() + self.mismatches == self.sent
        &&& self.sent <= self.sample_count
        &&& self.sample_count <= 0xffff_ffff
        &&& samples_bounded(self.samples@)
    }

    /// Starts a session for the configured number of probes.
    pub fn new(config: &TestConfig) -> (r: Self)
        requires
            config.latency_samples <= 0xffff_ffff,
        ensures
            r.wf(),
            r.sample_count == config.latency_samples,
            r.sent == 0,
            r.mismatches == 0,
            r.samples@ =~= Seq::<u64>::empty(),
    {
        ProbeSession {
            sample_count: config.latency_samples,
            sent: 0,
            mismatches: 0,
            samples: Vec::new(),
        }
    }

    /// Whether another probe is owed.
    pub fn more_probes(&self) -> (r: bool)
        ensures
            r == (self.sent < self.sample_count),
    {
        self.sent < self.sample_count
    }

    /// Judges the response to the probe whose Ping carried `expected`:
    /// a Pong echoing `expected` exactly records `elapsed_us` as a
    /// sample; a Pong with any other timestamp is discarded without
    /// retry; anything else aborts the session.
    pub fn on_response(&mut self, expected: u64, response: &Message, elapsed_us: u64) -> (r:
        Result<bool, DiagError>)
        requires
            old(self).wf(),
            old(self).sent < old(self).sample_count,
            elapsed_us <= MAX_SAMPLE_US,
        ensures
            final(self).wf(),
            final(self).sample_count == old(self).sample_count,
            match response@ {
                MessageV::Pong { timestamp } => if timestamp == expected {
                    &&& r == Ok::<bool, DiagError>(true)
                    &&& final(self).samples@ =~= old(self).samples@.push(elapsed_us)
                    &&& final(self).mismatches == old(self).mismatches
                    &&& final(self).sent == old(self).sent + 1
                } else {
                    &&& r == Ok::<bool, DiagError>(false)
                    &&& final(self).samples@ =~= old(self).samples@
                    &&& final(self).mismatches == old(self).mismatches + 1
                    &&& final(self).sent == old(self).sent + 1
                },
                _ => r == Err::<bool, DiagError>(DiagError::UnexpectedMessage) && *final(self)
                    == *old(self),
            },
    {
        match response {
            Message::Pong { timestamp } => {
                self.sent = self.sent + 1;
                if *timestamp == expected {
                    self.samples.push(elapsed_us);
                    Ok(true)
                } else {
                    self.mismatches = self.mismatches + 1;
                    Ok(false)
                }
            },
            _ => Err(DiagError::UnexpectedMessage),
        }
    }

    /// Aggregates the collected samples into latency results; zero
    /// collected samples fail with `InsufficientSamples`.
    pub fn finish(&self) -> (r: Result<LatencyResults, DiagError>)
        requires
            self.wf(),
        ensures
            self.samples@.len() == 0 ==> r == Err::<LatencyResults, DiagError>(
                DiagError::InsufficientSamples,
            ),
            self.samples@.len() > 0 ==> (r matches Ok(l) && l.min_us == spec_min(self.samples@)
                && l.max_us == spec_max(self.samples@) && l.avg_us == spec_avg(self.samples@)
                && is_isqrt(spec_variance(self.samples@), l.jitter_us as int)
                && l.packet_loss_percent == 0 && l.samples@ == self.samples@ && l.min_us
                <= l.avg_us <= l.max_us),
    {
        compute_latency_results(&self.samples)
    }
}

/// With every probe of a session answered by a Pong carrying the
/// matching timestamp — no mismatches — a completed session holds
/// exactly `sample_count` samples.
pub proof fn lemma_all_matched_full_count(s: ProbeSession)
    requires
        s.wf(),
        s.sent == s.sample_count,
        s.mismatches == 0,
    ensures
        s.samples@.len() == s.sample_count,
{
}

} // verus!
