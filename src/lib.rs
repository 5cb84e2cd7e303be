// Binary wire-format codec for a game protocol: typed values to and from bytes, with
// fixed-width big-endian scalars, VarInt length prefixes, bounded wrappers and a guard
// against hostile length fields. Every codec states its bytes as a spec function and is
// proved to write and read exactly those.
use vstd::prelude::*;

pub mod codec;
pub mod primitives;
pub mod varint;
pub mod collection;
pub mod strings;
pub mod bounded;
pub mod raw;
pub mod game_mode;
pub mod laws;

verus! {

} // verus!
