pub mod chunks;
pub mod cycles;
pub mod flatten;
pub mod format;
pub mod layout;
pub mod model;
pub mod model_helper;
pub mod parser;

pub use self::model::DataMessage;
pub use self::model::FieldParser;
pub use self::model::LogStage;
pub use self::model::LoggedStringMessage;
pub use self::model::ParseableFieldType;
pub use self::model_helper::LittleEndianParser;
pub use self::parser::LogParser;
