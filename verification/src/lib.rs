//! Address recovery for unnamed AArch64 functions and data inside an
//! ahead-of-time-compiled shared object.
//!
//! Starting from an address that is recoverable (an exported symbol, or a
//! method address looked up by name through the companion metadata), a short
//! navigation program names instruction classes and occurrence counts; the
//! trace engine walks the decoded instruction stream forward, counting
//! matches and performing class-specific address transitions, until the
//! program is exhausted and a final address is resolved.

pub mod errors;
pub mod ins;
pub mod program;
pub mod roots;
pub mod run;
pub mod trace;
