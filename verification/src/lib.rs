//! In-memory coordination core for a small practice-management service:
//! the entity store and its serialized mutations, the broadcast hub with
//! its monotonic sequence numbers, the per-account credential-refresh
//! scheduler, the external-calendar reconciler, and the collaboration
//! channel state machine, together with the snapshot codec that persists
//! the store.

pub mod assoc;
pub mod broadcast;
pub mod calendar;
pub mod channel;
pub mod codec;
pub mod entities;
pub mod laws;
pub mod multipart;
pub mod patients;
pub mod reconcile;
pub mod refresh;
pub mod remote;
pub mod sessions;
pub mod store;
pub mod support;

use vstd::prelude::*;

verus! {


/// The service's startup configuration, read once at the edge and passed
/// to whatever needs it: deployment mode, the two ports, and the emails
/// allowed to connect an account.
#[derive(Debug, Clone)]
pub struct EnvVars {
    pub is_production: bool,
    pub inner_port: u16,
    pub dev_port: u16,
    pub users: Vec<String>,
}

} // verus!
