//! Query and aggregation core of a card-collection browser: builds the
//! filtered card query, ranks and caps the joined rows that come back, and
//! folds them into one entity per card (or one record per row when a set
//! filter is active).

pub mod records;
pub mod text;
pub mod image;
pub mod aggregate;
pub mod ranking;
pub mod query;
pub mod listing;
pub mod laws;
