pub mod reassembly;
