//! A verified model of the host/VM boundary of an embedded, stack-based
//! scripting engine.
//!
//! The engine itself (parser, interpreter, collector) is a native resource
//! reachable only through C-style entry points; this crate captures the
//! protocol that a host must follow at that boundary: the operand-stack
//! discipline (1-based and top-relative indexing, type tags, coercion
//! rules), the handle lifecycle (no operation after close), the status and
//! garbage-collector code sets, and the text restrictions that the C string
//! convention imposes (no embedded NUL).

pub mod engine;
pub mod gc;
pub mod laws;
pub mod status;
pub mod text;
pub mod value;

pub use engine::BoundaryError;
pub use engine::EngineState;
pub use engine::RunOutcome;
pub use gc::LuaGC;
pub use status::LuaStatus;
pub use text::text_is_clean;
pub use value::LuaValue;
