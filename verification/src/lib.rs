//! Decoding of the reply to a Kafka "fetch messages" request, and a flat
//! walk over the partitions of several such replies.

pub mod compression;
pub mod error;
pub mod fetch;
pub mod iter;
pub mod laws;
pub mod model;
pub mod zreader;
