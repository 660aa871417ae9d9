pub mod event;
pub mod messages;
pub mod parser;
pub mod traits;

pub use event::WiSunEvent;
pub use messages::ParseResult;
pub use messages::SerialMessage;
pub use parser::WiSunModuleParser;
pub use traits::Parser;
