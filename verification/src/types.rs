//! Shared plain types: agent role, traffic-light status, test
//! configuration and the library's error taxonomy.

use vstd::prelude::*;

verus! {

/// Role of a running agent instance.
#[derive(Debug, Clone, Copy, PartialEq, Eq, Structural)]
pub enum AgentRole {
    Host,
    Client,
}

/// Traffic light severity for test results: `Green < Yellow < Red`.
#[derive(Debug, Clone, Copy, PartialEq, Eq, Structural)]
pub enum Status {
    /// Good - no issues detected.
    Green,
    /// Warning - minor issues detected.
    Yellow,
    /// Critical - major issues detected.
    Red,
}

/// Ordinal severity of a status: `Green` is 1, `Yellow` is 2, `Red` is 3.
pub open spec fn severity(s: Status) -> int {
    match s {
        Status::Green => 1,
        Status::Yellow => 2,
        Status::Red => 3,
    }
}

/// The ANSI foreground color code that `color_code` returns.
pub open spec fn spec_color_code(s: Status) -> Seq<char> {
    match s {
        Status::Green => "\x1b[32m"@,
        Status::Yellow => "\x1b[33m"@,
        Status::Red => "\x1b[31m"@,
    }
}

impl Status {
    /// ANSI foreground color code for terminal output.
    pub fn color_code(&self) -> (r: &'static str)
        ensures
            r@ == spec_color_code(*self),
    {
        match self {
            Status::Green => "\x1b[32m",
            Status::Yellow => "\x1b[33m",
            Status::Red => "\x1b[31m",
        }
    }

    /// ANSI reset code that undoes `color_code`.
    pub fn reset_code() -> (r: &'static str)
        ensures
            r@ == "\x1b[0m"@,
    {
        "\x1b[0m"
    }

    /// Of two statuses, the one with the higher severity.
    pub fn worse(self, other: Status) -> (r: Status)
        ensures
            severity(r) == if severity(self) >= severity(other) {
                severity(self)
            } else {
                severity(other)
            },
            r == self || r == other,
    {
        match (self, other) {
            (Status::Red, _) => Status::Red,
            (_, Status::Red) => Status::Red,
            (Status::Yellow, _) => Status::Yellow,
            (_, Status::Yellow) => Status::Yellow,
            _ => Status::Green,
        }
    }
}

/// Diagnostic test configuration. Latency samples are counted in probes;
/// the interval is the delay between consecutive probes in milliseconds.
#[derive(Debug, Clone, Copy, PartialEq, Eq, Structural)]
pub struct TestConfig {
    pub latency_samples: usize,
    pub latency_interval_ms: u64,
    pub bandwidth_duration_secs: u64,
}

impl Default for TestConfig {
    /// The stock configuration: 100 probes, 10 ms apart.
    fn default() -> (r: Self)
        ensures
            r.latency_samples == 100,
            r.latency_interval_ms == 10,
            r.bandwidth_duration_secs == 10,
    {
        TestConfig { latency_samples: 100, latency_interval_ms: 10, bandwidth_duration_secs: 10 }
    }
}

/// Errors raised by the library and surfaced by the surrounding program.
#[derive(Debug, Clone, Copy, PartialEq, Eq, Structural)]
pub enum DiagError {
    /// Framing or decode failure; fatal to the affected connection.
    Protocol,
    /// A message of the wrong kind for the current phase.
    UnexpectedMessage,
    /// Statistics were requested over zero collected samples.
    InsufficientSamples,
    /// An endpoint address missing its `host:port` shape.
    InvalidAddress,
}

} // verus!
