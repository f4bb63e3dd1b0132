pub mod collector;
