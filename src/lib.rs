//! Nested form encoding of structured request values, and the form decoder
//! and fixtures used to check such requests.

pub mod api;
pub mod encode;
pub mod fixtures;
pub mod laws;
pub mod mock;
pub mod params;
pub mod phid;
pub mod round_trip;
pub mod text;
pub mod value;
