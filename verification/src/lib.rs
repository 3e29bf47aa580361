//! A verified model of an in-process component object runtime: vtable layout,
//! intrusive reference counting, interface discovery, aggregation, class
//! factories and self-registration.

pub mod ids;
pub mod invariants;
pub mod laws;
pub mod layout;
pub mod runtime;
pub mod model;
pub mod registration;
pub mod status;
pub mod vtable;
