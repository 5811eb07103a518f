use vstd::prelude::*;

verus! {

/// The identity of a node of a localization tree: the 128-bit value of a
/// random (version 4) UUID.
#[derive(Clone, Copy, PartialEq, Eq, Structural, Hash, Debug)]
pub struct NodeId(pub u128);

/// `uuid::Uuid::new_v4`, taken as its 128-bit value (`Uuid::as_u128`).
/// The value is random: all that is stated is what `new_v4` fixes, the
/// version field (4) and the variant bits (RFC 4122).
#[verifier::external_body]
fn random_uuid_v4() -> (r: u128)
    ensures
        r & 0xF000C000000000000000u128 == 0x40008000000000000000u128,
{
    uuid::Uuid::new_v4().as_u128()
}

impl NodeId {
    /// A fresh, random node id.
    pub fn new() -> (r: NodeId)
        ensures
            r.0 & 0xF000C000000000000000u128 == 0x40008000000000000000u128,
    {
        NodeId(random_uuid_v4())
    }
}

} // verus!
