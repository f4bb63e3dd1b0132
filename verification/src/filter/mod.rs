pub mod display;
