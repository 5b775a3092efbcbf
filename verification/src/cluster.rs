//! Grouping log lines by what they say rather than by what they mention.

pub mod tokenize;
pub mod permute;
pub mod template;
