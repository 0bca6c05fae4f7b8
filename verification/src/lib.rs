//! Verified core of a batch matcher that links game names to Steam store pages.

pub mod candidate;
pub mod export;
pub mod ext;
pub mod fetch;
pub mod import;
pub mod laws;
pub mod matching;
pub mod message;
pub mod normalize;
pub mod paths;
pub mod search;
pub mod settings;
pub mod store;
pub mod text;
pub mod xlsx;
