//! Verified core of a round-trip latency diagnostic tool: wire codec,
//! probe state machine, statistics, status classification and terminal
//! report rendering. Networking and terminal I/O live outside the library.

pub mod codec;
pub mod host;
pub mod network;
pub mod probe;
pub mod protocol;
pub mod render;
pub mod report;
pub mod stats;
pub mod types;
pub mod viz;

pub use host::ResultStore;
pub use probe::Client;
pub use probe::ProbeSession;
pub use protocol::LatencyResults;
pub use protocol::Message;
pub use protocol::TestResults;
pub use report::DiagnosticReport;
pub use types::AgentRole;
pub use types::DiagError;
pub use types::Status;
pub use types::TestConfig;
