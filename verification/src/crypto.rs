//! Ed25519 keys and signatures. The signing and the checking are done by
//! `ring`; this module gives them contracts and keeps a key pair as the bytes
//! of its PKCS#8 document.

use vstd::prelude::*;
use crate::model::{KEY_LEN, SIGNATURE_LEN};
use crate::wire::put_bytes;

verus! {

/// The public key of the key pair that `Ed25519KeyPair::from_pkcs8` reads
/// from `pkcs8`, or `None` where it rejects the document.
pub uninterp spec fn ed25519_public_key(pkcs8: Seq<u8>) -> Option<Seq<u8>>;

/// The signature that the key pair read from `pkcs8` gives to `msg`
/// (`Ed25519KeyPair::sign`), or `None` where the document is rejected.
pub uninterp spec fn ed25519_signature(pkcs8: Seq<u8>, msg: Seq<u8>) -> Option<Seq<u8>>;

/// Whether `ring` takes `sig` for a signature of `msg` under `public_key`
/// (`UnparsedPublicKey::verify` with `ED25519`).
pub uninterp spec fn ed25519_valid(public_key: Seq<u8>, msg: Seq<u8>, sig: Seq<u8>) -> bool;

/// What holds of a document that `ring` accepts as a key pair with the public
/// key `public_key`: it signs every message, with 64 bytes that are valid
/// under that public key.
pub open spec fn signs_for(pkcs8: Seq<u8>, public_key: Seq<u8>) -> bool {
    &&& ed25519_public_key(pkcs8) == Some(public_key)
    &&& public_key.len() == KEY_LEN
    &&& forall|msg: Seq<u8>| #[trigger]
        ed25519_signature(pkcs8, msg) matches Some(sig) && sig.len() == SIGNATURE_LEN
            && ed25519_valid(public_key, msg, sig)
}

/// A key pair as plain values.
pub struct KeyView {
    pub pkcs8: Seq<u8>,
    pub public_key: Seq<u8>,
}

impl KeyView {
    /// The document is one that `ring` accepts, and the public key is its own.
    pub open spec fn wf(self) -> bool {
        signs_for(self.pkcs8, self.public_key)
    }

    /// The signature of the pair over `msg`.
    pub open spec fn signature(self, msg: Seq<u8>) -> Seq<u8> {
        ed25519_signature(self.pkcs8, msg)->Some_0
    }
}

/// An Ed25519 key pair, for signing. It holds a PKCS#8 document that `ring`
/// accepts and the public key in it.
pub struct KeyPair {
    pkcs8: Vec<u8>,
    public_key: [u8; 32],
}

impl View for KeyPair {
    type V = KeyView;

    closed spec fn view(&self) -> KeyView {
        KeyView { pkcs8: self.pkcs8@, public_key: self.public_key@ }
    }
}

/// The source of randomness of the operating system.
#[verifier::external_type_specification]
#[verifier::external_body]
pub struct ExSystemRandom(ring::rand::SystemRandom);

/// `Ed25519KeyPair::from_pkcs8`, then `public_key` on what it gives. The
/// result is named; where there is one, the document also signs every
/// message, and each signature is valid under the public key returned here:
/// `sign` cannot fail, and what it makes is what `verify` accepts.
#[verifier::external_body]
fn read_public_key(pkcs8: &[u8]) -> (public_key: Option<[u8; 32]>)
    ensures
        match public_key {
            Some(key) => signs_for(pkcs8@, key@),
            None => ed25519_public_key(pkcs8@) is None,
        },
{
    match ring::signature::Ed25519KeyPair::from_pkcs8(pkcs8) {
        Ok(pair) => ring::signature::KeyPair::public_key(&pair).as_ref().try_into().ok(),
        Err(_) => None,
    }
}

/// `Ed25519KeyPair::from_pkcs8`, then `sign` on what it gives. The result is
/// named: Ed25519 signatures do not depend on chance.
#[verifier::external_body]
fn sign_with_document(pkcs8: &[u8], msg: &[u8]) -> (signature: Option<[u8; 64]>)
    ensures
        match signature {
            Some(sig) => ed25519_signature(pkcs8@, msg@) == Some(sig@),
            None => ed25519_signature(pkcs8@, msg@) is None,
        },
{
    match ring::signature::Ed25519KeyPair::from_pkcs8(pkcs8) {
        Ok(pair) => pair.sign(msg).as_ref().try_into().ok(),
        Err(_) => None,
    }
}

/// `Ed25519KeyPair::generate_pkcs8`: the document of a fresh key pair, or
/// `None` where the source of randomness fails. Nothing is said of the
/// bytes, which differ from call to call.
#[verifier::external_body]
fn generate_document(rng: &ring::rand::SystemRandom) -> (document: Option<Vec<u8>>) {
    match ring::signature::Ed25519KeyPair::generate_pkcs8(rng) {
        Ok(document) => Some(document.as_ref().to_vec()),
        Err(_) => None,
    }
}

/// `SystemRandom::new`.
#[verifier::external_body]
pub fn new_rng() -> (rng: ring::rand::SystemRandom) {
    ring::rand::SystemRandom::new()
}

/// `UnparsedPublicKey::new` with `ED25519`, then `verify`: whether `sig` is a
/// signature of `msg` under `public_key`. Keys and signatures of a wrong
/// length are not valid. The answer depends on the three arguments alone.
#[verifier::external_body]
pub fn verify(public_key: &[u8], msg: &[u8], sig: &[u8]) -> (valid: bool)
    ensures
        valid == ed25519_valid(public_key@, msg@, sig@),
{
    ring::signature::UnparsedPublicKey::new(&ring::signature::ED25519, public_key)
        .verify(msg, sig)
        .is_ok()
}

impl KeyPair {
    #[verifier::type_invariant]
    spec fn inv(self) -> bool {
        signs_for(self.pkcs8@, self.public_key@)
    }

    /// The key pair in a PKCS#8 document, or `None` where the document is
    /// not that of an Ed25519 key pair with its public key.
    pub fn from_pkcs8(pkcs8: &[u8]) -> (pair: Option<KeyPair>)
        ensures
            match pair {
                Some(key) => key@.wf() && key@.pkcs8 == pkcs8@,
                None => ed25519_public_key(pkcs8@) is None,
            },
    {
        match read_public_key(pkcs8) {
            Some(public_key) => {
                let mut document: Vec<u8> = Vec::new();
                put_bytes(&mut document, pkcs8);
                assert(document@ =~= pkcs8@);
                Some(KeyPair { pkcs8: document, public_key })
            },
            None => None,
        }
    }

    /// The public key, 32 bytes.
    pub fn public_key(&self) -> (key: &[u8; 32])
        ensures
            key@ == self@.public_key,
            self@.wf(),
    {
        proof {
            use_type_invariant(self);
        }
        &self.public_key
    }

    /// The PKCS#8 document of the pair. It holds the private key.
    pub fn pkcs8(&self) -> (document: &[u8])
        ensures
            document@ == self@.pkcs8,
            self@.wf(),
    {
        proof {
            use_type_invariant(self);
        }
        self.pkcs8.as_slice()
    }
}

/// A fresh key pair, or `None` where the source of randomness fails.
pub fn generate_key(rng: &ring::rand::SystemRandom) -> (pair: Option<KeyPair>)
    ensures
        pair matches Some(key) ==> key@.wf(),
{
    match generate_document(rng) {
        Some(document) => KeyPair::from_pkcs8(document.as_slice()),
        None => None,
    }
}

/// The signature of `key_pair` over `msg`: 64 bytes, valid under the public
/// key of the pair.
pub fn sign(key_pair: &KeyPair, msg: &[u8]) -> (signature: [u8; 64])
    ensures
        key_pair@.wf(),
        signature@ == key_pair@.signature(msg@),
        ed25519_valid(key_pair@.public_key, msg@, signature@),
{
    proof {
        use_type_invariant(key_pair);
    }
    let ghost named = ed25519_signature(key_pair@.pkcs8, msg@);
    assert(named is Some);
    match sign_with_document(key_pair.pkcs8.as_slice(), msg) {
        Some(signature) => signature,
        None => {
            assert(false);
            [0u8; 64]
        },
    }
}

} // verus!
