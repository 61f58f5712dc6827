//! The database engine; its storage layer is all there is so far.

pub mod storage;
