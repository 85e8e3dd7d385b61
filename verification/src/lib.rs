pub mod directory;
pub mod dispatch;
pub mod message;
pub mod protocol;
pub mod text;
