//! Bounded copying of zero-terminated byte strings into fixed-capacity buffers.
//!
//! The logic is stated over `Seq<u8>` models and proved: the copy never writes at or past
//! the declared capacity, and always leaves a terminated string behind.
pub mod copy;
pub mod cstr;
