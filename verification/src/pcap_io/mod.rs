pub mod export;
pub mod import;
