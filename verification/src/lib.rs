//! Batch DNS lookup: normalize resolver answers into uniform `Lookup` rows,
//! flatten them per subject in order, and render the result as a table,
//! a JSON array, or a bare value list.
pub mod batch;
pub mod json;
pub mod model;
pub mod present;
pub mod table;
pub mod text;
