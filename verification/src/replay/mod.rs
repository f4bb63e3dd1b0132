pub mod models;
pub mod patterns;
pub mod engine;
pub mod commands;
pub mod generator;
