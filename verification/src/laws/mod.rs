//! What the library's functions are for, stated of their inputs and results alone.
//!
//! Each law is a proof function. It says how a result lies to what it was made from, or how
//! two results lie to each other, and leans on no definition of the result.
pub mod address;
pub mod calls;
pub mod collect;
pub mod device;
pub mod format;
pub mod host;
pub mod metrics;
pub mod number;
pub mod procfs;
pub mod ranges;
pub mod reading;
pub mod rows;
pub mod session;
pub mod snapshot;
pub mod sysmon;
pub mod text;
pub mod ui;
