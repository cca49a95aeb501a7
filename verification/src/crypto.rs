//! Trusted access to the two cryptographic primitives the STUN codec needs:
//! HMAC-SHA1 and CRC-32-IEEE. Both are pure functions of their byte inputs,
//! so each result is given an uninterpreted name that the codec's contracts
//! build on.

use vstd::prelude::*;

use crc::crc32;
use crypto::hmac::Hmac;
use crypto::mac::Mac;
use crypto::sha1::Sha1;

verus! {

/// The HMAC-SHA1 authentication code of `data` under `key`: a pure function
/// of its two byte-sequence arguments, 20 bytes long.
pub uninterp spec fn hmac_sha1_of(key: Seq<u8>, data: Seq<u8>) -> Seq<u8>;

/// The CRC-32-IEEE checksum of `data`: a pure function of its argument.
pub uninterp spec fn crc32_of(data: Seq<u8>) -> u32;

/// Relies on crypto::hmac::Hmac over crypto::sha1::Sha1: a message
/// authentication code that depends only on the key and the message, with
/// SHA1's 20-byte output size.
#[verifier::external_body]
pub fn hmac_sha1(key: &[u8], data: &[u8]) -> (r: Vec<u8>)
    ensures
        r@ == hmac_sha1_of(key@, data@),
        r@.len() == 20,
{
    let mut mac = Hmac::new(Sha1::new(), key);
    mac.input(data);
    mac.result().code().to_vec()
}

/// Relies on crc::crc32::checksum_ieee: the CRC-32-IEEE checksum, a pure
/// function of the input bytes.
#[verifier::external_body]
pub fn crc32_ieee(data: &[u8]) -> (r: u32)
    ensures
        r == crc32_of(data@),
{
    crc32::checksum_ieee(data)
}

} // verus!
