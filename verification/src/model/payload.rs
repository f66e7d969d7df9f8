use vstd::prelude::*;

verus! {

/// Namespace for decoding the payload of an append request.
///
/// Decoding is done by the data node on the bytes it receives; this type carries no state.
pub struct Payload {}

} // verus!
