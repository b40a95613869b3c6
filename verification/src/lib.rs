//! CockroachDB-flavoured SQL fragments built on a verified emission protocol.
//!
//! Every fragment node implements one operation: walking itself into a shared
//! sink that accumulates SQL text, positional bind parameters and a statement
//! cacheability flag. The contracts pin down, for every node, exactly which
//! text and which bound values a walk appends, and every node carries a proof
//! that the positional placeholders in its text match its bind values one for
//! one.

pub mod as_of_system_time;
pub mod ast;
pub mod query;
pub mod upsert;
