//! Core logic of a small stock tracker: symbol and form handling, the chart
//! request URL, cache freshness, the rows kept from a chart reply, the recent
//! change table, portfolio price planning and number grouping for display.

pub mod text;
pub mod url;
pub mod overview;
pub mod holdings;
pub mod quotes;
pub mod clock;
pub mod numfmt;
pub mod forms;
