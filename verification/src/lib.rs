//! A verified core for a fast `rm` replacement.
//!
//! The library decides what a removal does; a driver performs the system
//! calls it asks for and reports what came back.
pub mod bytes;
pub mod options;
pub mod error;
pub mod names;
pub mod errno;
pub mod outcome;
pub mod machine;
pub mod laws;
pub mod tree;
