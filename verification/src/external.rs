//! The calls into XCM and into the hashing host functions, and what is claimed of
//! them.

use vstd::prelude::*;
#[allow(unused_imports)]
use parity_scale_codec::{Decode, Encode};

verus! {

/// What `staging_xcm::v3::MultiLocation::reanchor` makes of a location: the encoded
/// `location`, seen from the encoded `target`, with the encoded path `context` as the
/// location of here; `None` where the bytes do not decode or where reanchoring fails.
pub uninterp spec fn xcm_reanchored(location: Seq<u8>, target: Seq<u8>, context: Seq<u8>) -> Option<Seq<u8>>;

/// The Blake2 256-bit digest of `data`, as `sp_io::hashing::blake2_256` computes it.
pub uninterp spec fn blake2_256_digest(data: Seq<u8>) -> Seq<u8>;

/// Calls `staging_xcm::v3::MultiLocation::reanchor` on the decoded arguments and encodes the
/// result. Claimed: the result is `xcm_reanchored` of the arguments; nothing more is
/// stated of what reanchoring computes.
#[verifier::external_body]
pub(crate) fn reanchor_encoded(location: &[u8], target: &[u8], context: &[u8]) -> (r: Option<Vec<u8>>)
    ensures
        r is Some == xcm_reanchored(location@, target@, context@) is Some,
        r matches Some(v) ==> xcm_reanchored(location@, target@, context@) == Some(v@),
{
    let mut l = staging_xcm::v3::MultiLocation::decode(&mut &location[..]).ok()?;
    let t = staging_xcm::v3::MultiLocation::decode(&mut &target[..]).ok()?;
    let c = staging_xcm::v3::Junctions::decode(&mut &context[..]).ok()?;
    l.reanchor(&t, c).ok()?;
    Some(l.encode())
}

/// Calls `sp_io::hashing::blake2_256`. Claimed: the result is `blake2_256_digest` of
/// `data`.
#[verifier::external_body]
pub(crate) fn blake2_256(data: &[u8]) -> (r: [u8; 32])
    ensures
        r@ == blake2_256_digest(data@),
{
    sp_io::hashing::blake2_256(data)
}

} // verus!
