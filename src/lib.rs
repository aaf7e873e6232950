//! Sleep-score records fetched from a fitness-tracker web API: the decisions
//! around the request, the checks on the decoded response, a stable ordering of
//! the records by date, and their text and JSON renderings.

pub mod fetch;
pub mod order;
pub mod record;
pub mod render;
pub mod request;
