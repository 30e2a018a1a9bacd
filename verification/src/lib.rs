//! In-process metrics instrumentation library.
//!
//! Typed metric primitives ([`Counter`], [`Gauge`], [`Histogram`]) are grouped
//! into named [`MetricsGroup`]s, collected by a [`Registry`] tree that scopes
//! groups with name prefixes and label sets, and rendered into the OpenMetrics
//! text exposition format.  A snapshot [`Encoder`]/[`Decoder`] pair transports
//! the registry's schema and current values between processes as plain data.

use vstd::prelude::*;

pub mod base;
pub mod encoding;
pub mod iterable;
pub mod metrics;
pub mod parse;
pub mod registry;

pub use crate::base::{MetricItem, MetricsGroup, MetricsGroupSet};
pub use crate::encoding::{Decoder, DecoderIter, Encoder, EncoderOpts, Item, ItemSchema, Schema, Update, Values};
pub use crate::iterable::{FieldIter, Iterable};
pub use crate::metrics::{Counter, FloatValue, Gauge, Histogram, Metric, MetricType, MetricValue};
pub use crate::parse::parse_prometheus_lines;
pub use crate::registry::{MetricsSource, Registry};

verus! {

/// Errors surfaced by the encoding entry points.
///
/// Writing to an in-memory string buffer cannot fail, so the library's own
/// encoders always succeed; the variants exist for callers that route the
/// output through fallible sinks or the optional global registry adapter.
#[derive(Clone, Copy, Debug, PartialEq, Eq)]
pub enum Error {
    /// Metrics collection is not enabled.
    NoMetrics,
    /// Writing the metrics to the output buffer failed.
    Fmt,
    /// An input/output failure while transporting encoded metrics.
    Io,
}

} // verus!
