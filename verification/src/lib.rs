//! An open-addressing hash table from 64-bit keys to 64-bit values, with
//! linear probing, backward-shift deletion and capacity doubling.

pub mod hashing;
pub mod slots;
pub mod model;
pub mod laws;
pub mod open_index_table;
