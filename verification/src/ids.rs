//! Fresh identifiers for layers, canvases and strokes.

use vstd::prelude::*;

verus! {

/// The bits of an identifier that hold its version and variant.
pub const ID_FORMAT_MASK: u128 = 0x0000_0000_0000_F000_C000_0000_0000_0000;

/// Version four, variant one: a random identifier.
pub const ID_FORMAT_RANDOM: u128 = 0x0000_0000_0000_4000_8000_0000_0000_0000;

/// Whether the identifier is marked as a random one.
pub open spec fn is_random_id(id: u128) -> bool {
    id & ID_FORMAT_MASK == ID_FORMAT_RANDOM
}

/// A fresh random identifier, from `uuid::Uuid::new_v4`, as the 128-bit
/// number that `Uuid::as_u128` gives for it.
///
/// Trusted: `new_v4` sets the version bits to four and the variant bits to
/// one-zero whatever the random source delivers; nothing is claimed of the
/// other bits, and two calls may return anything. Where the operating system
/// cannot deliver random bytes, `new_v4` panics; nothing here can rule that
/// out, so every function that asks for a fresh identifier shares it.
#[verifier::external_body]
pub(crate) fn fresh_id() -> (id: u128)
    ensures
        is_random_id(id),
{
    uuid::Uuid::new_v4().as_u128()
}

} // verus!
