//! Core of a smart-contract runtime layer: storage addressing on a flat
//! key-value store, a collision-resistant map on top of it, selector-based
//! call dispatch and the numeric error channel of the host.

pub mod ext;
pub mod key;
pub mod storage;
pub mod hashmap;
pub mod dispatch;
