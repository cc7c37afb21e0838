//! A symmetric cipher suite for learners: a generic Feistel network with
//! step-by-step traces, a DES assembled from it, MD5 message padding and the
//! multi-word bit vector used for wide keys and states.
pub mod bitvector;
pub mod blockcipher;
pub mod des;
pub mod display;
pub mod hex;
pub mod md5;

pub use bitvector::BitVector;
pub use des::nist_des::canonical_builder;
pub use des::{DESBuilder, DESTrace, DESTraceEntry, LRKey, DES};
