//! Practice tracking client logic: report definitions, chart data, colour
//! zones, time and duration input handling, release channel cookies and the
//! paths and responses of the server's API.
use vstd::prelude::*;

pub mod text;
pub mod model;
pub mod colour_zones;
pub mod chart_data;
pub mod release_channel;
pub mod duration_input;
pub mod charts;
pub mod dates;
pub mod services;
pub mod requests;
pub mod csv_export;
pub mod chart_report;
pub mod diary;
pub mod yatra;
pub mod practices;
pub mod graph_editor;
pub mod yatra_practices;
pub mod forms;
pub mod csv_import;

verus! {
} // verus!
