//! Reading, searching and exporting line-delimited conversation transcripts.
pub mod text;
pub mod json;
pub mod record;
pub mod normalize;
pub mod search;
pub mod session;
pub mod export;
pub mod doctor;
pub mod inventory;
pub mod stats;
