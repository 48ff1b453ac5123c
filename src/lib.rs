use vstd::prelude::*;

pub mod bytes;
pub mod cache;
pub mod clock;
pub mod digest;
pub mod entry;
pub mod expiry;
pub mod glossary;
pub mod hex;
pub mod media;
pub mod memory;
pub mod recent;
pub mod translate;
pub mod types;

verus! {

} // verus!
