//! A verified core for a cohort calendar pipeline: conditional-retrieval
//! decisions, feed-session normalization, title classification, course
//! aggregation, and calendar-document synthesis.
pub mod text;
pub mod model;
pub mod timefmt;
pub mod classify;
pub mod rrule;
pub mod feed;
pub mod aggregate;
pub mod ics;
pub mod select;
pub mod fetch;
