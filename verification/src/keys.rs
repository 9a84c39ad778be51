//! OpenPGP keys: making one, signing with one, reading one, and judging the
//! structure of a signed message.
use vstd::prelude::*;
use vstd::utf8::encode_utf8;

use sequoia_openpgp::cert::Cert;
use sequoia_openpgp::crypto::{KeyPair, Password};

pub use crate::certificate::{
    cert_parses, key_identity, law_key_follows_source, law_same_bytes_same_key, literal_body,
    parsed_secret, parsed_userids, CertModel, Certificate, KeyIdentity, SecretState, SigningKey,
};
use crate::certificate::{
    cert_from_bytes, generate_key, generation_gives, keypair_gives, primary_signing_key, sign_with,
    signing_gives,
};

verus! {

#[verifier::external_type_specification]
#[verifier::external_body]
pub struct ExCert(Cert);

#[verifier::external_type_specification]
#[verifier::external_body]
pub struct ExPassword(Password);

#[verifier::external_type_specification]
#[verifier::external_body]
pub struct ExKeyPair(KeyPair);

#[verifier::external_type_specification]
#[verifier::external_body]
pub struct ExAnyhowError(anyhow::Error);

#[verifier::external_type_specification]
#[verifier::external_body]
pub struct ExIoError(std::io::Error);

/// Why a key operation failed.
pub enum KeyError {
    /// OpenPGP refused: a malformed key, a key without its secret part, a
    /// failed signature.
    Openpgp(anyhow::Error),
    /// Writing the message failed.
    Io(std::io::Error),
}

/// Reads a certificate from its serialized form (binary or armored); the
/// result keeps the bytes it was read from, and holds the key they give.
pub fn parse_cert(bytes: &[u8]) -> (r: Result<Certificate, KeyError>)
    ensures
        r is Ok <==> cert_parses(bytes@),
        r matches Ok(c) ==> c@.source == Some(bytes@) && c@.userids == parsed_userids(bytes@)
            && c@.secret == parsed_secret(bytes@),
        r matches Ok(c) ==> c@.key == KeyIdentity::ReadFrom(bytes@),
        r matches Err(e) ==> e is Openpgp,
{
    match cert_from_bytes(bytes) {
        Ok(cert) => {
            proof {
                law_key_follows_source(&cert);
            }
            Ok(cert)
        },
        Err(e) => Err(KeyError::Openpgp(e)),
    }
}

/// What a new key is made from: one user id, and the password that will
/// protect its secret parts, if any.
pub struct KeyRequest {
    pub userid: String,
    pub password: Option<Password>,
}

impl KeyRequest {
    /// The request for a key with the one user id `username`.
    pub fn new(username: &str, password: Option<Password>) -> (r: KeyRequest)
        ensures
            r.userid@ == username@,
            r.password == password,
    {
        KeyRequest { userid: username.to_owned(), password }
    }
}

/// The user id values a request asks for: the UTF-8 bytes of its one user id.
pub open spec fn requested_userids(userid: Seq<char>) -> Seq<Seq<u8>> {
    seq![encode_utf8(userid)]
}

/// What a new key's primary key holds of its secret part: encrypted where a
/// password is given, usable as it is otherwise.
pub open spec fn requested_secret(password: bool) -> SecretState {
    if password {
        SecretState::Encrypted
    } else {
        SecretState::Unencrypted
    }
}

/// A generation outcome as the result of making a key.
pub open spec fn key_result(g: Result<Certificate, anyhow::Error>) -> Result<Certificate, KeyError> {
    match g {
        Ok(c) => Ok(c),
        Err(e) => Err(KeyError::Openpgp(e)),
    }
}

/// Makes a new key for `username`, its secret parts protected by `password`
/// where one is given. What it gives, success or failure, is what making the
/// key as asked gives: it fails only where that fails, whatever the user name.
pub fn create_key(username: &str, password: Option<Password>) -> (r: Result<Certificate, KeyError>)
    ensures
        r matches Ok(c) ==> c@.userids == requested_userids(username@) && c@.secret
            == requested_secret(password is Some) && c@.source is None,
        r matches Ok(c) ==> c@.key is Made,
        r matches Err(e) ==> e is Openpgp,
        exists|request: KeyRequest, g: Result<Certificate, anyhow::Error>|
            request.userid@ == username@ && request.password == password && generation_gives(request, g)
                && r == key_result(g),
{
    let request = KeyRequest::new(username, password);
    let ghost asked = request;
    let made = generate_key(request);
    let ghost outcome = made;
    let r = match made {
        Ok(cert) => {
            proof {
                law_key_follows_source(&cert);
            }
            Ok(cert)
        },
        Err(e) => Err(KeyError::Openpgp(e)),
    };
    assert(generation_gives(asked, outcome) && r == key_result(outcome));
    r
}

/// Signs `plain_data` with the primary key of `cert`: an OpenPGP message
/// holding the data as a literal packet and a signature over it that checks
/// against that key. It fails where the primary key has no usable secret part,
/// and otherwise only where taking the key or writing the message fails.
pub fn sign_data(plain_data: &[u8], cert: &Certificate) -> (r: Result<Vec<u8>, KeyError>)
    ensures
        cert@.secret != SecretState::Unencrypted ==> r is Err,
        r matches Ok(s) ==> literal_body(s@, cert@.key) == Some(plain_data@),
        exists|k: Result<SigningKey, anyhow::Error>|
            keypair_gives(cert, k) && match k {
                Ok(key) => signing_gives(key, plain_data, r),
                Err(e) => r == Err::<Vec<u8>, KeyError>(KeyError::Openpgp(e)),
            },
{
    let k = primary_signing_key(cert);
    let ghost taken = k;
    let r = match k {
        Ok(key) => sign_with(key, plain_data),
        Err(e) => Err(KeyError::Openpgp(e)),
    };
    assert(keypair_gives(cert, taken));
    r
}

/// One layer of a signed message's structure, as far as judging it needs.
pub enum Layer {
    /// A group of signatures over the data, with what checking the first one
    /// gave: `Some(true)` good, `Some(false)` bad, `None` no signature at all.
    SignatureGroup(Option<bool>),
    /// Any other layer (compression, encryption).
    Other,
}

/// The judgement on a signed message's structure.
#[derive(Debug, Clone, Copy, PartialEq, Eq, Structural)]
pub enum Verdict {
    /// The data is signed, and the signature is good.
    Good,
    /// The first signature over the data is bad.
    BadSignature,
    /// The signature group holds no signature.
    NoSignature,
    /// A layer other than one group of signatures over the data.
    UnexpectedStructure,
    /// There are no layers at all.
    NotVerified,
}

/// What the layers of a message give: exactly one layer, a group of signatures
/// whose first signature is good, passes.
pub open spec fn verdict_of(layers: Seq<Layer>) -> Verdict {
    if layers.len() == 0 {
        Verdict::NotVerified
    } else {
        match layers[0] {
            Layer::SignatureGroup(Some(true)) => if layers.len() == 1 {
                Verdict::Good
            } else {
                Verdict::UnexpectedStructure
            },
            Layer::SignatureGroup(Some(false)) => Verdict::BadSignature,
            Layer::SignatureGroup(None) => Verdict::NoSignature,
            Layer::Other => Verdict::UnexpectedStructure,
        }
    }
}

/// Judges the structure of a signed message, layer by layer.
pub fn check_layers(layers: &Vec<Layer>) -> (r: Verdict)
    ensures
        r == verdict_of(layers@),
{
    let mut good = false;
    let n = layers.len();
    for i in 0..n
        invariant
            n == layers@.len(),
            good <==> (i > 0 && layers@[0] matches Layer::SignatureGroup(Some(true))),
            i > 0 ==> layers@[0] matches Layer::SignatureGroup(Some(true)),
            i > 1 ==> false,
    {
        match &layers[i] {
            Layer::SignatureGroup(first) => {
                if i != 0 {
                    return Verdict::UnexpectedStructure;
                }
                match first {
                    Some(true) => {
                        good = true;
                    },
                    Some(false) => {
                        return Verdict::BadSignature;
                    },
                    None => {
                        return Verdict::NoSignature;
                    },
                }
            },
            Layer::Other => {
                return Verdict::UnexpectedStructure;
            },
        }
    }
    if good {
        Verdict::Good
    } else {
        Verdict::NotVerified
    }
}

/// The text of a failed judgement.
pub open spec fn verdict_text(v: Verdict) -> Seq<char> {
    match v {
        Verdict::Good => Seq::<char>::empty(),
        Verdict::BadSignature => "Bad signature"@,
        Verdict::NoSignature => "No signature"@,
        Verdict::UnexpectedStructure => "Unexpected message structure"@,
        Verdict::NotVerified => "Signature verification failed"@,
    }
}

impl Verdict {
    /// The text of a failed judgement (empty for a good one).
    pub fn message(&self) -> (r: &'static str)
        ensures
            r@ == verdict_text(*self),
    {
        match self {
            Verdict::Good => {
                proof {
                    reveal_strlit("");
                }
                ""
            },
            Verdict::BadSignature => "Bad signature",
            Verdict::NoSignature => "No signature",
            Verdict::UnexpectedStructure => "Unexpected message structure",
            Verdict::NotVerified => "Signature verification failed",
        }
    }
}

} // verus!
