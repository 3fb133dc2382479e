//! The signing authority: one ed25519 key pair for the life of the process,
//! signing content with fresh noise on every call.

use vstd::prelude::*;
use crate::manifest::{ArtifactList, artifact_lines, build_manifest, manifest_text, sorted_by_name};
use crate::runner::{SIGNATURE_LEN, ed25519_accepts};

verus! {

#[verifier::external_type_specification]
#[verifier::external_body]
pub struct ExKeyPair(ed25519_compact::KeyPair);

#[verifier::external_type_specification]
#[verifier::external_body]
pub struct ExNoise(ed25519_compact::Noise);

/// The public half of a key pair, as bytes.
pub uninterp spec fn keypair_public_key(kp: ed25519_compact::KeyPair) -> Seq<u8>;

/// Whether the public half of a key pair is the one its seed gives, as
/// `KeyPair::validate` checks.
pub uninterp spec fn keypair_valid(kp: ed25519_compact::KeyPair) -> bool;

/// Relies on ed25519_compact::KeyPair::generate: a key pair from a random
/// seed, through `KeyPair::try_from_seed`, which derives the public key from
/// the seed and stores `seed || pk` as the secret key. It panics if the
/// operating system's random source fails.
#[verifier::external_body]
fn generate_keypair() -> (r: ed25519_compact::KeyPair)
    ensures
        keypair_valid(r),
{
    ed25519_compact::KeyPair::generate()
}

/// Relies on the field `KeyPair::pk` and its `Deref` to `[u8; 32]`: the 32
/// bytes of the public key.
#[verifier::external_body]
fn public_key_bytes(kp: &ed25519_compact::KeyPair) -> (r: Vec<u8>)
    ensures
        r@ == keypair_public_key(*kp),
        r@.len() == 32,
{
    kp.pk.to_vec()
}

/// Relies on ed25519_compact::Noise::generate: 16 random bytes. It panics if
/// the operating system's random source fails.
#[verifier::external_body]
fn fresh_noise() -> (r: ed25519_compact::Noise) {
    ed25519_compact::Noise::generate()
}

/// Relies on ed25519_compact::SecretKey::sign with noise: a signature of the
/// message, 64 bytes through `Signature`'s `Deref` to `[u8; 64]`, which
/// `PublicKey::verify` accepts for the pair's public key whatever the noise.
#[verifier::external_body]
fn sign_message(kp: &ed25519_compact::KeyPair, message: &[u8], noise: ed25519_compact::Noise) -> (r:
    Vec<u8>)
    requires
        keypair_valid(*kp),
    ensures
        r@.len() == 64,
        ed25519_accepts(keypair_public_key(*kp), message@, r@),
{
    kp.sk.sign(message, Some(noise)).to_vec()
}

/// The process's signing key pair.
pub struct SigningAuthority {
    keypair: ed25519_compact::KeyPair,
}

impl SigningAuthority {
    /// The public key, as bytes.
    pub closed spec fn public_key_view(&self) -> Seq<u8> {
        keypair_public_key(self.keypair)
    }

    /// The key pair is consistent: its public key is the one its seed gives.
    pub closed spec fn wf(&self) -> bool {
        keypair_valid(self.keypair)
    }

    /// Makes a fresh key pair from the secure random source.
    pub fn generate() -> (r: SigningAuthority)
        ensures
            r.wf(),
    {
        SigningAuthority { keypair: generate_keypair() }
    }

    pub fn public_key(&self) -> (r: Vec<u8>)
        ensures
            r@ == self.public_key_view(),
            r@.len() == 32,
    {
        public_key_bytes(&self.keypair)
    }

    /// Signs the content with fresh noise: two signatures of the same content
    /// differ in their bytes, and each verifies under the public key.
    pub fn sign(&self, content: &[u8]) -> (r: Vec<u8>)
        requires
            self.wf(),
        ensures
            r@.len() == SIGNATURE_LEN,
            ed25519_accepts(self.public_key_view(), content@, r@),
    {
        sign_message(&self.keypair, content, fresh_noise())
    }

    /// The manifest of this authority's public key and the artifacts, in
    /// order of names.
    pub fn manifest(&self, artifacts: &ArtifactList) -> (r: Vec<u8>)
        requires
            artifacts.wf(),
        ensures
            sorted_by_name(artifacts@),
            r@ == manifest_text(self.public_key_view(), artifact_lines(artifacts@)),
    {
        let pk = self.public_key();
        build_manifest(pk.as_slice(), artifacts)
    }
}

} // verus!
