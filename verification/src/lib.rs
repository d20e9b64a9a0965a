use vstd::prelude::*;

pub mod api;
pub mod backup;
pub mod calendar;
pub mod datetime;
pub mod dashboard;
pub mod display;
pub mod field_extractors;
pub mod forms;
pub mod gh_query;
pub mod json;
pub mod markdown;
pub mod releases;
pub mod settings;
pub mod slack_summary;
pub mod table;
pub mod text_map;
pub mod types;
pub mod war_room;
pub mod text;

verus! {
} // verus!
