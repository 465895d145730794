//! Prompt condensing: text clean-up and phrase shortening that reduce the
//! number of tokens a prompt costs, with the token estimate it is measured by.

pub mod text;

pub mod layout;

pub mod unicode;

pub mod pattern;

pub mod metrics;

pub mod algorithms;

pub mod pipeline;

pub mod validation;

pub mod commands;

pub mod usage;

pub mod agent;

pub use crate::pipeline::CompressionStrategy;
