pub mod catalog;
pub mod filter_type;
pub mod json;
pub mod match_data;
pub mod records;
pub mod sidecar;
pub mod text;
