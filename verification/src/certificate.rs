//! Certificates and signing keys.
//!
//! A `Certificate` pairs an OpenPGP certificate with what the library read of
//! it. Its fields are private to this module, and only the calls into
//! sequoia-openpgp here make one, so what a `Certificate` says of itself is
//! always what was read from the certificate it holds. The same holds of a
//! `SigningKey` and the key it came from.
use vstd::prelude::*;

use sequoia_openpgp::cert::{Cert, CertBuilder};
use sequoia_openpgp::crypto::KeyPair;
use sequoia_openpgp::packet::key::SecretKeyMaterial;
use sequoia_openpgp::parse::Parse;
use sequoia_openpgp::serialize::stream::{LiteralWriter, Message, Signer};

use crate::keys::{requested_secret, requested_userids, KeyError, KeyRequest};

verus! {

/// What the primary key of a certificate holds of its secret part.
#[derive(Debug, Clone, Copy, PartialEq, Eq, Structural)]
pub enum SecretState {
    /// No secret part: a public key only.
    Missing,
    /// A secret part protected by a password.
    Encrypted,
    /// A secret part that can be used as it is.
    Unencrypted,
}

/// Which key a certificate holds: the one that `Cert::from_bytes` reads from
/// these bytes, or a key made here, known by its fingerprint.
pub enum KeyIdentity {
    ReadFrom(Seq<u8>),
    Made(Seq<u8>),
}

/// What the library knows of a certificate, as plain values: the values of
/// its user ids in order, what its primary key holds of its secret part, the
/// bytes it was read from, where it was read from bytes, and which key it
/// holds.
pub struct CertModel {
    pub userids: Seq<Seq<u8>>,
    pub secret: SecretState,
    pub source: Option<Seq<u8>>,
    pub key: KeyIdentity,
}

/// The key known by these bytes read or, where none were, by this fingerprint.
pub open spec fn key_identity(source: Option<Vec<u8>>, fingerprint: Vec<u8>) -> KeyIdentity {
    match source {
        Some(b) => KeyIdentity::ReadFrom(b@),
        None => KeyIdentity::Made(fingerprint@),
    }
}

/// A certificate together with what the library read of it when it was made
/// or parsed.
pub struct Certificate {
    cert: Cert,
    userids: Vec<Vec<u8>>,
    secret: SecretState,
    source: Option<Vec<u8>>,
    fingerprint: Vec<u8>,
}

impl View for Certificate {
    type V = CertModel;

    closed spec fn view(&self) -> CertModel {
        CertModel {
            userids: self.userids@.map_values(|u: Vec<u8>| u@),
            secret: self.secret,
            source: match &self.source {
                Some(b) => Some(b@),
                None => None,
            },
            key: key_identity(self.source, self.fingerprint),
        }
    }
}

impl Certificate {
    /// The certificate itself.
    pub fn cert(&self) -> &Cert {
        &self.cert
    }

    /// What the primary key holds of its secret part.
    pub fn secret(&self) -> (r: SecretState)
        ensures
            r == self@.secret,
    {
        self.secret
    }

    /// The values of the user ids.
    pub fn userids(&self) -> (r: &Vec<Vec<u8>>)
        ensures
            r@.map_values(|u: Vec<u8>| u@) == self@.userids,
    {
        &self.userids
    }
}

/// A certificate read from bytes holds the key those bytes give, so two read
/// from the same bytes hold the same key; one made here holds a key known by
/// its fingerprint.
pub proof fn law_key_follows_source(c: &Certificate)
    ensures
        c@.source matches Some(b) ==> c@.key == KeyIdentity::ReadFrom(b),
        c@.source is None ==> c@.key is Made,
{
}

/// Two certificates read from the same bytes hold the same key.
pub proof fn law_same_bytes_same_key(c1: &Certificate, c2: &Certificate)
    requires
        c1@.source is Some,
        c1@.source == c2@.source,
    ensures
        c1@.key == c2@.key,
{
}

/// Whether `Cert::from_bytes` accepts these bytes as one certificate.
pub uninterp spec fn cert_parses(bytes: Seq<u8>) -> bool;

/// The values of the user ids, in order, of the certificate that
/// `Cert::from_bytes` reads from these bytes (`Cert::userids`, then
/// `UserID::value` of each).
pub uninterp spec fn parsed_userids(bytes: Seq<u8>) -> Seq<Seq<u8>>;

/// What the primary key of the certificate that `Cert::from_bytes` reads from
/// these bytes holds of its secret part (`Key::optional_secret`).
pub uninterp spec fn parsed_secret(bytes: Seq<u8>) -> SecretState;

/// `Cert::from_bytes`, kept with the bytes it read, the values of its user ids,
/// what its primary key holds of its secret part and its fingerprint. The
/// claim: whether parsing succeeds, and what is read back, are functions of the
/// bytes alone (parsing reads nothing but them).
#[verifier::external_body]
pub(crate) fn cert_from_bytes(bytes: &[u8]) -> (r: Result<Certificate, anyhow::Error>)
    ensures
        r is Ok <==> cert_parses(bytes@),
        r matches Ok(c) ==> c@.source == Some(bytes@) && c@.userids == parsed_userids(bytes@)
            && c@.secret == parsed_secret(bytes@),
{
    let cert = Cert::from_bytes(bytes)?;
    let userids = cert.userids().map(|u| u.userid().value().to_vec()).collect();
    let secret = match cert.primary_key().key().optional_secret() {
        None => SecretState::Missing,
        Some(SecretKeyMaterial::Encrypted(_)) => SecretState::Encrypted,
        Some(SecretKeyMaterial::Unencrypted(_)) => SecretState::Unencrypted,
    };
    let fingerprint = cert.fingerprint().as_bytes().to_vec();
    Ok(Certificate { cert, userids, secret, source: Some(bytes.to_vec()), fingerprint })
}

/// `CertBuilder::new().add_userid(..).set_password(..).generate()`, kept with
/// the user id values and secret state of the key made, read back
/// (`Cert::userids` and `UserID::value`, `Key::optional_secret`), and its
/// fingerprint. The claim, from the builder's source: the certificate has
/// exactly the one user id asked for (`UserID::from(&str)` keeps the bytes of
/// the string), and its primary key has a secret part, encrypted in place with
/// the password where one is given. The keys themselves rest on chance and are
/// left unsaid; so is when generation fails.
#[verifier::external_body]
fn generate(request: KeyRequest) -> (r: Result<Certificate, anyhow::Error>)
    ensures
        r matches Ok(c) ==> c@.userids == requested_userids(request.userid@) && c@.secret
            == requested_secret(request.password is Some) && c@.source is None,
{
    let (cert, _) = CertBuilder::new()
        .add_userid(request.userid.as_str())
        .set_password(request.password)
        .generate()?;
    let userids = cert.userids().map(|u| u.userid().value().to_vec()).collect();
    let secret = match cert.primary_key().key().optional_secret() {
        None => SecretState::Missing,
        Some(SecretKeyMaterial::Encrypted(_)) => SecretState::Encrypted,
        Some(SecretKeyMaterial::Unencrypted(_)) => SecretState::Unencrypted,
    };
    let fingerprint = cert.fingerprint().as_bytes().to_vec();
    Ok(Certificate { cert, userids, secret, source: None, fingerprint })
}

/// `g` is a result that making a key as `request` asks can give.
pub closed spec fn generation_gives(request: KeyRequest, g: Result<Certificate, anyhow::Error>) -> bool {
    call_ensures(generate, (request,), g)
}

/// Makes a key as `request` asks.
pub(crate) fn generate_key(request: KeyRequest) -> (r: Result<Certificate, anyhow::Error>)
    ensures
        generation_gives(request, r),
        r matches Ok(c) ==> c@.userids == requested_userids(request.userid@) && c@.secret
            == requested_secret(request.password is Some) && c@.source is None,
{
    generate(request)
}

/// The primary key of a certificate as a key pair that can sign, together with
/// which key it is.
pub struct SigningKey {
    pair: KeyPair,
    source: Option<Vec<u8>>,
    fingerprint: Vec<u8>,
}

impl View for SigningKey {
    type V = KeyIdentity;

    closed spec fn view(&self) -> KeyIdentity {
        key_identity(self.source, self.fingerprint)
    }
}

/// The certificate's primary key as a key pair that can sign:
/// `primary_key().key().clone().parts_into_secret()?.into_keypair()`, known as
/// the certificate's key. The claim, from the source: it is the certificate's
/// primary key; `parts_into_secret` fails where there is no secret part and
/// `into_keypair` fails where it is encrypted.
#[verifier::external_body]
fn signing_keypair(cert: &Certificate) -> (r: Result<SigningKey, anyhow::Error>)
    ensures
        cert@.secret != SecretState::Unencrypted ==> r is Err,
        r matches Ok(k) ==> k@ == cert@.key,
{
    let pair = cert.cert.primary_key().key().clone().parts_into_secret()?.into_keypair()?;
    Ok(SigningKey { pair, source: cert.source.clone(), fingerprint: cert.fingerprint.clone() })
}

/// `k` is a result that taking the primary key of `cert` as a key pair can give.
pub closed spec fn keypair_gives(cert: &Certificate, k: Result<SigningKey, anyhow::Error>) -> bool {
    call_ensures(signing_keypair, (cert,), k)
}

/// The primary key of `cert` as a key pair that can sign.
pub(crate) fn primary_signing_key(cert: &Certificate) -> (r: Result<SigningKey, anyhow::Error>)
    ensures
        keypair_gives(cert, r),
        cert@.secret != SecretState::Unencrypted ==> r is Err,
        r matches Ok(k) ==> k@ == cert@.key,
{
    signing_keypair(cert)
}

/// The literal data of the OpenPGP message that `openpgp::Message::from_bytes`
/// reads from `message` (its `body`), where the message carries a signature
/// over it that checks against the primary key of `signer`; nothing otherwise.
pub uninterp spec fn literal_body(message: Seq<u8>, signer: KeyIdentity) -> Option<Seq<u8>>;

/// Writes `data` as an OpenPGP message signed by `key`: `Message::new` on a
/// fresh buffer, `Signer::new(..).build()`, `LiteralWriter::new(..).build()`,
/// `write_all`, `finalize`. The claim, from the stream writers' source: where
/// it succeeds, the message's literal data packet holds exactly `data`, and its
/// signature over it is made by `key`. The signature bytes rest on the clock
/// and are left unsaid; so is when writing fails.
#[verifier::external_body]
fn write_signed(key: SigningKey, data: &[u8]) -> (r: Result<Vec<u8>, KeyError>)
    ensures
        r matches Ok(s) ==> literal_body(s@, key@) == Some(data@),
{
    let mut sink = Vec::new();
    let message = Signer::new(Message::new(&mut sink), key.pair).build().map_err(KeyError::Openpgp)?;
    let mut message = LiteralWriter::new(message).build().map_err(KeyError::Openpgp)?;
    std::io::Write::write_all(&mut message, data).map_err(KeyError::Io)?;
    message.finalize().map_err(KeyError::Openpgp)?;
    Ok(sink)
}

/// `m` is a result that writing `data` as a message signed by `key` can give.
pub closed spec fn signing_gives(key: SigningKey, data: &[u8], m: Result<Vec<u8>, KeyError>) -> bool {
    call_ensures(write_signed, (key, data), m)
}

/// Writes `data` as an OpenPGP message signed by `key`.
pub(crate) fn sign_with(key: SigningKey, data: &[u8]) -> (r: Result<Vec<u8>, KeyError>)
    ensures
        signing_gives(key, data, r),
        r matches Ok(s) ==> literal_body(s@, key@) == Some(data@),
{
    write_signed(key, data)
}

} // verus!
