//! Approximate distinct-value counting for a relational aggregate.
//!
//! Each row of a group hands one value to `x_step`; after the last row
//! `x_finalize` gives the estimated number of distinct values. Values are
//! brought into a canonical form (`canonical`), hashed into the registers of
//! a sketch (`sketch`) that the group keeps from its first counted row on
//! (`aggregate`). What the estimate cannot depend on is proved in
//! `invariance`; `host` holds the numbers of the host engine's interface.

pub mod aggregate;
pub mod canonical;
pub mod host;
pub mod invariance;
pub mod sketch;

pub use aggregate::{x_finalize, x_step, AggregateState, PRODUCTION_ERROR_RATE_BITS};
pub use canonical::{
    canonicalize, integer_decode, CanonicalValue, HashableF64, StepError, Value,
};
pub use host::{registration, value_kind, Registration, ValueKind};
pub use sketch::SqliteHll;
