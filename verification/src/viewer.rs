//! The viewer: reaching an agent, watching it, and coming back to it.

pub mod devices;
pub mod fit;
pub mod frames;
pub mod keys;
pub mod known;
pub mod latency;
pub mod options;
pub mod overlay;
pub mod pace;
pub mod reconnect;
pub mod running;
pub mod screen;
pub mod session;
pub mod streams;
pub mod window;
