//! Durable job consumer core: the wire codec for analysis jobs, the analysis
//! stages and their verdict rules, and the per-message orchestration that
//! decides counters and acknowledgment, and the routing of the metrics
//! endpoint.

pub mod codec;
pub mod table;
pub mod stages;
pub mod pipeline;
pub mod exporter;
