//! Outbound-email delivery engine.
//!
//! A host process hands whole RFC 5322 messages to the engine, which accepts
//! them synchronously, returns a message identifier, and thereafter delivers
//! each message to every recipient on its own schedule.  Delivery happens
//! either through a single configured SMTP relay or directly to each
//! recipient's domain by resolving MX records.
//!
//! This crate holds the verified core: message preparation, the storage
//! interface with an in-memory reference implementation, MX-record ordering,
//! SMTP outcome classification, the task queue, and the per-message and
//! per-recipient delivery state machine.  The embedding shell (threads,
//! channels, sockets) drives these functions.

pub mod config;
pub mod delivery;
pub mod delivery_result;
pub mod error;
pub mod laws;
pub mod message_status;
pub mod mx;
pub mod prepared_email;
pub mod recipient_status;
pub mod smtp;
pub mod storage;
pub mod task;
pub mod text;
pub mod worker;
