pub mod client;
pub mod session;
