//! Optical character recognition of captured screen frames: which backend runs, what its
//! output means, and what of the recognised text may be kept.

pub mod command;
pub mod confidence;
pub mod cut;
pub mod double;
pub mod error;
pub mod frame;
pub mod json;
pub mod number;
pub mod observation;
pub mod payload;
pub mod policy;
pub mod process;
pub mod readiness;
pub mod recognize;
pub mod record;
pub mod scripts;
pub mod selection;
pub mod text;
pub mod tsv;
