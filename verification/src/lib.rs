//! Encoding and decoding of DNS messages in their wire format: the fixed
//! header, questions, resource records and compressed domain names.
//!
//! Every executable function carries a contract over a mathematical model of
//! the bytes it reads or writes, and the laws that tie encoding and decoding
//! together are proved in [`laws`].

pub mod deserialization;
pub mod domain_name;
pub mod laws;
pub mod packet;
pub mod record;
pub mod serialization;
