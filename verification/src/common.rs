//! What every command shares: time, errors, targets and the output envelope.

pub mod aws;
pub mod credcache;
pub mod envelope;
pub mod errors;
pub mod flags;
pub mod profiles;
pub mod progress;
pub mod time;
