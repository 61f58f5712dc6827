//! Durable page storage: fixed-size pages over one backing file, an 8-bit
//! cyclic redundancy check, a crash-safe pair of metadata pages and the slot
//! directory of a page.

pub mod dbms;
