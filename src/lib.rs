//! Compiles a schema of message variants, each with per-language templates
//! and an optional kind tag, into a dispatch table that renders classified
//! messages.
pub mod dispatch;
pub mod laws;
pub mod schema;
pub mod template;
pub mod text;
