use vstd::prelude::*;

pub mod analysis_types;
pub mod config;
pub mod log_reader;
pub mod numfmt;
pub mod ranked_analysis;
pub mod records;
pub mod decode;
pub mod event_processor;
pub mod events_reader;
pub mod timeline;

verus! {

} // verus!
