//! The rules of a self-hosted remote desktop: what its agent, viewer and
//! server decide, apart from the sockets, screens and databases they decide
//! about.

pub mod bytes;
pub mod crypto;
pub mod hex;
pub mod input;
pub mod net;
pub mod protocol;
pub mod release;
pub mod server;
pub mod sort;
pub mod table;
pub mod text;
pub mod transport;
pub mod viewer;
