//! A quad-based graph store over an ordered byte-string keyspace.
//!
//! Values are interned to 64-bit identifiers with reference counts; quads are
//! stored as tuples of identifiers, indexed by content hash and by
//! (direction, value-id) so that prefix scans serve both full iteration and
//! direction-constrained lookups.

pub mod all_iterator;
pub mod bytes_be;
pub mod iterator;
pub mod keys;
pub mod kv;
pub mod laws;
pub mod load;
pub mod model;
pub mod number;
pub mod primitive;
pub mod quad;
pub mod quad_ids;
pub mod quadstore;
pub mod refs;
pub mod shape;
pub mod value;
