pub mod chat;
pub mod json;
pub mod mcp;
pub mod stream;
pub mod text;
