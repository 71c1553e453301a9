//! Normalisation of phone-specification spreadsheet cells into typed records,
//! and aggregate queries over the resulting collection.

pub mod text;
pub mod decimal;
pub mod fields;
pub mod record;
pub mod queries;
pub mod load;
pub mod laws;
