use vstd::prelude::*;

pub mod registry;
pub mod text;
pub mod tier;
pub mod worker;
pub mod dates;
pub mod lines;
pub mod sorted;
pub mod spec;
pub mod stem;
pub mod format;
pub mod queue;
pub mod schedule;
pub mod openapi;
pub mod yaml_meta;
pub mod coverage;
pub mod chart;
pub mod status;
pub mod preview;
