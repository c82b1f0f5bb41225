//! Events that a site fans out to live subscribers.

use crate::dispatch::DispatchChange;
use crate::history::Metric;
use crate::scalar::Scalar;
use crate::setpoints::SetpointKind;
use vstd::prelude::*;

verus! {

/// Capacity of the event bus.
pub const EVENT_BUS_CAPACITY: usize = 4096;

/// One event.
#[derive(Clone, Debug)]
#[allow(inconsistent_fields)]
pub enum SiteEvent {
    /// A mutation occurred; subscribers refetch the topology.
    TopologyChanged { version: u64 },
    /// One telemetry sample of the history sampler.
    Sample { id: u64, metric: Metric, ts_ms: i64, value: Scalar },
    /// A setpoint request and its outcome; the reason is set for a refusal.
    Setpoint {
        id: u64,
        ts_ms: i64,
        setpoint_kind: SetpointKind,
        value: Scalar,
        accepted: bool,
        reason: Option<String>,
    },
    /// One captured log record.
    Log { ts_ms: i64, level: String, target: String, message: String },
    /// Loading the configuration failed.
    ConfigError { ts_ms: i64, message: String },
    /// One sample of an aggregated stream; no value where the stream has none.
    MicrogridSample {
        stream: &'static str,
        quantity: &'static str,
        unit: &'static str,
        ts_ms: i64,
        value: Option<Scalar>,
    },
    /// A dispatch was created, updated or deleted.
    DispatchChanged { dispatch_id: u64, change: DispatchChange },
}

} // verus!
