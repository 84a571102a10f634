//! Wire formats of the onion-routing protocol.
pub mod cells;
