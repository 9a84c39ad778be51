//! The key under which the key store keeps a certificate.
use vstd::prelude::*;

use sequoia_openpgp::serialize::Serialize;

use crate::keys::{Certificate, KeyError};

verus! {

/// Whether the stored form of a certificate keeps a user id: it keeps none.
pub fn keeps_user_id() -> (r: bool)
    ensures
        !r,
{
    false
}

/// The armored public part, without user ids, of the certificate that
/// `Cert::from_bytes` reads from these bytes.
pub uninterp spec fn public_armor(source: Seq<u8>) -> Seq<u8>;

/// Whether armoring the public part, without user ids, of the certificate that
/// `Cert::from_bytes` reads from these bytes succeeds.
pub uninterp spec fn armor_serializes(source: Seq<u8>) -> bool;

/// `Clone::clone`, `Cert::retain_userids` with `keeps_user_id` as the
/// predicate, `Cert::armored`, then `Serialize::serialize` into a fresh
/// buffer. The claim: for a certificate read from bytes, whether it succeeds
/// and what is written are functions of those bytes alone (serializing reads
/// nothing but the certificate). For a certificate not read from bytes nothing
/// is claimed.
#[verifier::external_body]
fn armored_public_key(cert: &Certificate) -> (r: Result<Vec<u8>, anyhow::Error>)
    ensures
        cert@.source matches Some(b) ==> (r is Ok <==> armor_serializes(b)),
        cert@.source matches Some(b) ==> (r matches Ok(a) ==> a@ == public_armor(b)),
{
    let pubkey = cert.cert().clone().retain_userids(|_id| keeps_user_id());
    let mut armor = Vec::new();
    pubkey.armored().serialize(&mut armor)?;
    Ok(armor)
}

/// `a` is a result that armoring the public part of `cert`, without user ids,
/// can give.
pub closed spec fn armoring_gives(cert: &Certificate, a: Result<Vec<u8>, anyhow::Error>) -> bool {
    call_ensures(armored_public_key, (cert,), a)
}

/// The key under which the key store keeps `cert`: its public part, without
/// user ids, ASCII-armored. It fails only where armoring fails.
pub fn store_key(cert: &Certificate) -> (r: Result<Vec<u8>, KeyError>)
    ensures
        r matches Err(e) ==> e is Openpgp,
        cert@.source matches Some(b) ==> (r is Ok <==> armor_serializes(b)),
        cert@.source matches Some(b) ==> (r matches Ok(a) ==> a@ == public_armor(b)),
        exists|a: Result<Vec<u8>, anyhow::Error>|
            armoring_gives(cert, a) && r == match a {
                Ok(x) => Ok::<Vec<u8>, KeyError>(x),
                Err(e) => Err(KeyError::Openpgp(e)),
            },
{
    let a = armored_public_key(cert);
    let ghost armored = a;
    let r = match a {
        Ok(armor) => Ok(armor),
        Err(e) => Err(KeyError::Openpgp(e)),
    };
    assert(armoring_gives(cert, armored));
    r
}

} // verus!
