pub mod models;
pub mod grammar;
pub mod parser;
pub mod rate_counter;
pub mod ban_list;
pub mod engine;
pub mod conflict;
pub mod response;
pub mod manager;
pub mod stats;
pub mod worker;
pub mod persistence;
pub mod actions;
pub mod roundtrip;
