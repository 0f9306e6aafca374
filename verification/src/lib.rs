//! The Xoodoo permutation over a small grid of 32-bit lanes, together with
//! two thin absorb / permute / extract wrappers built on it.

pub mod xoodoo_hash;
