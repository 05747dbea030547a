//! Verified core of the learned-skill library.

pub mod admission;
pub mod artifact;
pub mod backoff;
pub mod capability;
pub mod commands;
pub mod coordinator;
pub mod digest;
pub mod distill;
pub mod embed;
pub mod fakes;
pub mod feedback;
pub mod held_out;
pub mod imports;
pub mod index;
pub mod json;
pub mod lifecycle;
pub mod operations;
pub mod order;
pub mod owner;
pub mod policy;
pub mod promotion;
pub mod publication;
pub mod store;
pub mod text;
pub mod usage;
