//! Log-tail and status monitors: decision logic only, the I/O loops live
//! with the caller.
pub mod file;
pub mod instruction;
pub mod kws;
pub mod playing;
