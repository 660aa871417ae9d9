pub mod enums;
pub mod errors;
pub mod packet;
pub mod property_map;

pub use enums::EchonetObject;
pub use enums::EchonetProperty;
pub use enums::EchonetService;
pub use enums::EchonetSmartMeterProperty;
pub use enums::EchonetSuperClassProperty;
pub use errors::Error;
pub use errors::Result;
