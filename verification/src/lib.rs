pub mod text;
pub mod models;
pub mod rule;
pub mod capture;
pub mod views;
pub mod templates;
pub mod filter;
pub mod stream;
pub mod session;
pub mod stats;
pub mod pcap_io;
pub mod tls;
pub mod replay;
pub mod protocol;
