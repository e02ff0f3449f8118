//! Keys as the library handles them: plain bytes that are known to be keys.

use vstd::prelude::*;

use crate::bytes::bytes_equal;

verus! {

/// Whether `bytes` is the x coordinate of a point of secp256k1, as
/// `bitcoin::XOnlyPublicKey::from_slice` decides it.
pub uninterp spec fn is_x_only_key(bytes: Seq<u8>) -> bool;

/// Calls `bitcoin::XOnlyPublicKey::from_slice`.
///
/// Claimed of it: whether it accepts a slice depends on the bytes alone, and it
/// accepts no slice of another length than 32.
#[verifier::external_body]
fn x_only_key_accepts(data: &[u8]) -> (accepted: bool)
    ensures
        accepted == is_x_only_key(data@),
        accepted ==> data@.len() == 32,
{
    bitcoin::XOnlyPublicKey::from_slice(data).is_ok()
}

/// A public key without the parity of its point.
#[derive(Clone, Copy, Debug, PartialEq, Eq)]
pub struct XOnlyPublicKey {
    bytes: [u8; 32],
}

impl View for XOnlyPublicKey {
    type V = Seq<u8>;

    closed spec fn view(&self) -> Seq<u8> {
        self.bytes@
    }
}

impl XOnlyPublicKey {
    #[verifier::type_invariant]
    spec fn well_formed(self) -> bool {
        is_x_only_key(self.bytes@)
    }

    /// A key has 32 bytes, and they tell it from every other key.
    pub proof fn lemma_bytes(self, other: XOnlyPublicKey)
        ensures
            self@.len() == 32,
            self@ == other@ ==> self == other,
    {
        if self@ == other@ {
            assert(self.bytes =~= other.bytes);
        }
    }

    /// The key that `data` serializes, if it is one.
    pub fn from_slice(data: &[u8]) -> (key: Option<XOnlyPublicKey>)
        ensures
            key is Some <==> is_x_only_key(data@),
            key matches Some(k) ==> k@ == data@,
    {
        if x_only_key_accepts(data) {
            let mut bytes: [u8; 32] = [0u8; 32];
            let mut i: usize = 0;
            while i < 32
                invariant
                    i <= 32,
                    data@.len() == 32,
                    bytes@.len() == 32,
                    forall|k: int| 0 <= k < i ==> bytes@[k] == data@[k],
                decreases 32 - i,
            {
                bytes[i] = data[i];
                i = i + 1;
            }
            assert(bytes@ =~= data@);
            Some(XOnlyPublicKey { bytes })
        } else {
            None
        }
    }

    /// The 32 bytes of the key.
    pub fn serialize(&self) -> (bytes: [u8; 32])
        ensures
            bytes@ == self@,
            is_x_only_key(bytes@),
    {
        proof {
            use_type_invariant(self);
        }
        self.bytes
    }

    /// Whether two keys are the same.
    pub fn same(&self, other: &XOnlyPublicKey) -> (same: bool)
        ensures
            same == (self@ == other@),
            same == (*self == *other),
    {
        proof {
            self.lemma_bytes(*other);
        }
        bytes_equal(self.bytes.as_slice(), other.bytes.as_slice())
    }
}

// -- Public keys --

/// Whether `bytes` is a compressed public key, as
/// `bitcoin::secp256k1::PublicKey::from_slice` decides it.
pub uninterp spec fn is_public_key(bytes: Seq<u8>) -> bool;

/// Calls `bitcoin::secp256k1::PublicKey::from_slice` on 33 bytes.
///
/// Claimed of it: whether it accepts the bytes depends on them alone.
#[verifier::external_body]
fn public_key_accepts(data: &[u8; 33]) -> (accepted: bool)
    ensures
        accepted == is_public_key(data@),
{
    bitcoin::secp256k1::PublicKey::from_slice(data).is_ok()
}

/// Calls `bitcoin::secp256k1::PublicKey::x_only_public_key`.
///
/// Claimed of it: the x-only key is what follows the parity byte of the
/// compressed key.
#[verifier::external_body]
fn public_key_x(data: &[u8; 33]) -> (key: [u8; 32])
    requires
        is_public_key(data@),
    ensures
        key@ == data@.subrange(1, 33),
        is_x_only_key(key@),
{
    let key = bitcoin::secp256k1::PublicKey::from_slice(data).expect("a public key");
    key.x_only_public_key().0.serialize()
}

/// A public key in compressed form.
#[derive(Clone, Copy, Debug, PartialEq, Eq)]
pub struct PublicKey {
    bytes: [u8; 33],
}

impl View for PublicKey {
    type V = Seq<u8>;

    closed spec fn view(&self) -> Seq<u8> {
        self.bytes@
    }
}

impl PublicKey {
    #[verifier::type_invariant]
    spec fn well_formed(self) -> bool {
        is_public_key(self.bytes@)
    }

    /// A key has 33 bytes, and they tell it from every other key.
    pub proof fn lemma_bytes(self, other: PublicKey)
        ensures
            self@.len() == 33,
            self@ == other@ ==> self == other,
    {
        if self@ == other@ {
            assert(self.bytes =~= other.bytes);
        }
    }

    /// The key that 33 bytes serialize, if they do.
    pub fn from_bytes(bytes: [u8; 33]) -> (key: Option<PublicKey>)
        ensures
            key is Some <==> is_public_key(bytes@),
            key matches Some(k) ==> k@ == bytes@,
    {
        if public_key_accepts(&bytes) {
            Some(PublicKey { bytes })
        } else {
            None
        }
    }

    /// The 33 bytes of the key.
    pub fn serialize(&self) -> (bytes: [u8; 33])
        ensures
            bytes@ == self@,
            is_public_key(bytes@),
    {
        proof {
            use_type_invariant(self);
        }
        self.bytes
    }

    /// The key without its parity.
    pub open spec fn without_parity(self) -> XOnlyPublicKey {
        choose|key: XOnlyPublicKey| key@ == self@.subrange(1, 33)
    }

    /// The key without its parity.
    pub fn x_only(&self) -> (key: XOnlyPublicKey)
        ensures
            key == self.without_parity(),
            key@ == self@.subrange(1, 33),
    {
        proof {
            use_type_invariant(self);
        }
        let key = XOnlyPublicKey { bytes: public_key_x(&self.bytes) };
        proof {
            key.lemma_bytes(self.without_parity());
        }
        key
    }

    /// Whether two keys are the same.
    pub fn same(&self, other: &PublicKey) -> (same: bool)
        ensures
            same == (self@ == other@),
            same == (*self == *other),
    {
        proof {
            self.lemma_bytes(*other);
        }
        bytes_equal(self.bytes.as_slice(), other.bytes.as_slice())
    }
}

// -- Key pairs --

/// Whether `bytes` is a secret key, as `bitcoin::secp256k1::SecretKey::from_slice`
/// decides it.
pub uninterp spec fn is_secret_key(bytes: Seq<u8>) -> bool;

/// The compressed public key of a secret key.
pub uninterp spec fn public_key_of(secret: Seq<u8>) -> Seq<u8>;

/// The x-only public key of a secret key.
pub open spec fn x_only_of(secret: Seq<u8>) -> Seq<u8> {
    public_key_of(secret).subrange(1, 33)
}

/// The signature that `sign_schnorr_no_aux_rand` makes of a digest for an x-only key.
pub uninterp spec fn x_only_signature(key: Seq<u8>, digest: Seq<u8>) -> Seq<u8>;

/// The signature of a digest for a secret key. Secret keys with the same x-only key
/// make the same signatures.
pub open spec fn schnorr_signature(secret: Seq<u8>, digest: Seq<u8>) -> Seq<u8> {
    x_only_signature(x_only_of(secret), digest)
}

/// Calls `bitcoin::secp256k1::SecretKey::from_slice`.
///
/// Claimed of it: whether it accepts the bytes depends on them alone.
#[verifier::external_body]
fn secret_key_accepts(data: &[u8; 32]) -> (accepted: bool)
    ensures
        accepted == is_secret_key(data@),
{
    bitcoin::secp256k1::SecretKey::from_slice(data).is_ok()
}

/// Calls `bitcoin::secp256k1::Keypair::public_key`.
///
/// Claimed of it: the public key is determined by the secret key.
#[verifier::external_body]
fn keypair_public_key(secret: &[u8; 32]) -> (key: [u8; 33])
    requires
        is_secret_key(secret@),
    ensures
        key@ == public_key_of(secret@),
        is_public_key(key@),
{
    let secp = bitcoin::secp256k1::Secp256k1::new();
    let keypair = bitcoin::secp256k1::Keypair::from_seckey_slice(&secp, secret).expect("a key");
    keypair.public_key().serialize()
}

/// Calls `bitcoin::secp256k1::Secp256k1::sign_schnorr_no_aux_rand`.
///
/// Claimed of it: without auxiliary randomness the signature is determined by the
/// digest and the x-only key. The two secret keys that have an x-only key in common are
/// negatives of each other; the call signs with the one whose public key is even, and
/// takes its nonce from that one.
#[verifier::external_body]
fn sign_schnorr_no_aux_rand(secret: &[u8; 32], digest: &[u8; 32]) -> (signature: [u8; 64])
    requires
        is_secret_key(secret@),
    ensures
        signature@ == x_only_signature(x_only_of(secret@), digest@),
{
    let secp = bitcoin::secp256k1::Secp256k1::new();
    let keypair = bitcoin::secp256k1::Keypair::from_seckey_slice(&secp, secret).expect("a key");
    let message = bitcoin::secp256k1::Message::from_digest(*digest);
    secp.sign_schnorr_no_aux_rand(&message, &keypair).serialize()
}

/// A secret key and the public key that belongs to it.
#[derive(Clone, Copy)]
pub struct Keypair {
    secret: [u8; 32],
}

impl Keypair {
    #[verifier::type_invariant]
    spec fn well_formed(self) -> bool {
        is_secret_key(self.secret@)
    }

    /// The secret key.
    pub closed spec fn secret_bytes(self) -> Seq<u8> {
        self.secret@
    }

    /// The x-only public key of the pair.
    pub open spec fn x_only_bytes(self) -> Seq<u8> {
        x_only_of(self.secret_bytes())
    }

    /// The pair of a secret key, if the bytes are one.
    pub fn from_secret(secret: [u8; 32]) -> (keypair: Option<Keypair>)
        ensures
            keypair is Some <==> is_secret_key(secret@),
            keypair matches Some(k) ==> k.secret_bytes() == secret@,
    {
        if secret_key_accepts(&secret) {
            Some(Keypair { secret })
        } else {
            None
        }
    }

    /// The secret key.
    pub fn secret(&self) -> (secret: [u8; 32])
        ensures
            secret@ == self.secret_bytes(),
            is_secret_key(secret@),
    {
        proof {
            use_type_invariant(self);
        }
        self.secret
    }

    /// The public key.
    pub fn public_key(&self) -> (key: PublicKey)
        ensures
            key@ == public_key_of(self.secret_bytes()),
    {
        proof {
            use_type_invariant(self);
        }
        PublicKey { bytes: keypair_public_key(&self.secret) }
    }

    /// The public key without its parity.
    pub fn x_only_public_key(&self) -> (key: XOnlyPublicKey)
        ensures
            key@ == self.x_only_bytes(),
    {
        self.public_key().x_only()
    }

    /// The pair's signature of a digest, with the key that it verifies under.
    pub fn sign_digest(&self, digest: [u8; 32]) -> (signed: ([u8; 64], [u8; 32]))
        ensures
            signed.0@ == schnorr_signature(self.secret_bytes(), digest@),
            signed.1@ == self.x_only_bytes(),
            is_x_only_key(signed.1@),
    {
        proof {
            use_type_invariant(self);
        }
        (sign_schnorr_no_aux_rand(&self.secret, &digest), self.x_only_public_key().serialize())
    }
}

} // verus!
