//! A verified flight-booking engine.
//!
//! The engine allocates scarce shared inventory (per-flight ticket quotas and
//! individual seats) to competing booking requests without overselling. The
//! authoritative state lives in an [`store::InventoryStore`]; every mutation
//! of a quota or a seat goes through a version-gated conditional update, the
//! single serialization point of the protocol. The allocators
//! ([`ticket_service`], [`seat_allocation`]) retry on version conflicts with
//! a randomized backoff, multi-leg bookings ([`booking`]) are compensated
//! saga-style when a later leg fails, and the guarantees this buys are
//! proved once and for all in [`laws`].

#![verifier::loop_isolation(false)]

pub mod dates;
pub mod error;
pub mod laws;
pub mod models;
pub mod retry;
pub mod store;
pub mod text;

pub mod booking;
pub mod flight_service;
pub mod history;
pub mod seat_allocation;
pub mod ticket_service;
pub mod user_service;
