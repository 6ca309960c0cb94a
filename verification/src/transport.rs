//! What the two ends of a connection know each other by, and what they sign;
//! how they find each other.

pub mod access;
pub mod fingerprint;
pub mod grant;
pub mod identity;
pub mod netem;
pub mod relay;
pub mod release;
pub mod rendezvous;
