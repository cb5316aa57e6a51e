//! A small persistent object store for a gift registry: two record schemas
//! (gifts and recipients), each kept in its own table built from a durable
//! id counter and an ordered durable map over a region of the host's
//! persistent address space.

pub mod codec;
pub mod counter;
pub mod gifts;
pub mod recipients;
pub mod records;
pub mod storage;
