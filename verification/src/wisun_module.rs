pub mod client;
pub mod errors;
pub mod mock;

pub use client::WiSunClient;
pub use errors::Error;
