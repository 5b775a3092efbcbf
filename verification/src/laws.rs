//! What the library promises, stated over what goes in and what comes out.
//!
//! Each law relates the inputs of an operation to its result in plain terms:
//! literal names and numbers, positions in the inputs, two results of the same
//! operation. `texts` and `values` speak of characters and tokens, `masking`
//! of templates, `clusters`, `listing` and `moments` of logs, `periods` and
//! `series` of metrics, `inventory` of instances, `access` of profiles and
//! credentials, `answers` of what is written; `operations` says of the calls
//! themselves what the others say of their results.

pub mod access;
pub mod answers;
pub mod clusters;
pub mod inventory;
pub mod listing;
pub mod masking;
pub mod moments;
pub mod operations;
pub mod periods;
pub mod series;
pub mod texts;
pub mod values;
