pub mod buffer;
pub mod errors;
pub mod mock_serial;
pub mod port;
pub mod traits;
pub mod wrapper;

pub use errors::Error;
pub use port::new;
pub use traits::Connection;
pub use traits::ReadWrite;
