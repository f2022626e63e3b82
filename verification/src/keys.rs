//! The signing identity: a keypair derived once from a 32-byte seed.
//! Key derivation and signing are deterministic, so the derived account
//! and every signature are functions of the seed (and payload) alone.

use vstd::prelude::*;
use ed25519_dalek::Signer;

verus! {

/// The 32-byte account identifier that key derivation gives to a seed.
pub uninterp spec fn account_of(seed: Seq<u8>) -> Seq<u8>;

/// The 64-byte signature that signing `payload` with `seed` produces.
pub uninterp spec fn signature_of(seed: Seq<u8>, payload: Seq<u8>) -> Seq<u8>;

/// Relies on ed25519_dalek::SigningKey::from_bytes and
/// VerifyingKey::to_bytes: deriving the public key from a 32-byte seed is
/// infallible and a deterministic function of the seed, and the public
/// key is 32 bytes.
#[verifier::external_body]
fn derive_account(seed: &Vec<u8>) -> (r: Vec<u8>)
    requires
        seed@.len() == 32,
    ensures
        r@ == account_of(seed@),
        r@.len() == 32,
{
    let mut sk = [0u8; 32];
    sk.copy_from_slice(seed.as_slice());
    let key = ed25519_dalek::SigningKey::from_bytes(&sk);
    key.verifying_key().to_bytes().to_vec()
}

/// Relies on ed25519_dalek's Signer::sign for SigningKey: an Ed25519
/// signature is computed deterministically from the key and the message
/// (RFC 8032), and is 64 bytes.
#[verifier::external_body]
fn sign_payload(seed: &Vec<u8>, payload: &Vec<u8>) -> (r: Vec<u8>)
    requires
        seed@.len() == 32,
    ensures
        r@ == signature_of(seed@, payload@),
        r@.len() == 64,
{
    let mut sk = [0u8; 32];
    sk.copy_from_slice(seed.as_slice());
    let key = ed25519_dalek::SigningKey::from_bytes(&sk);
    key.sign(payload.as_slice()).to_bytes().to_vec()
}

/// Why a keypair could not be made.
#[derive(Clone, Copy, Debug, PartialEq, Eq, Structural)]
pub enum KeyError {
    /// The seed was not exactly 32 bytes.
    InvalidSeedLength,
}

/// A signing identity: the private seed and the account identifier
/// derived from it. Created once from a seed; the fields never change.
pub struct Keypair {
    seed: Vec<u8>,
    account: Vec<u8>,
}

impl Keypair {
    /// The seed this keypair was made from.
    pub closed spec fn seed_view(self) -> Seq<u8> {
        self.seed@
    }

    /// The derived account identifier.
    pub closed spec fn account_view(self) -> Seq<u8> {
        self.account@
    }

    /// The seed is 32 bytes and the account is what derivation gives it.
    pub closed spec fn wf(self) -> bool {
        self.seed@.len() == 32 && self.account@.len() == 32 && self.account@ == account_of(
            self.seed@,
        )
    }

    /// Derives a keypair from a seed: succeeds exactly when the seed is
    /// 32 bytes, and then the account is determined by the seed alone.
    pub fn from_seed(seed: Vec<u8>) -> (r: Result<Keypair, KeyError>)
        ensures
            match r {
                Ok(k) => seed@.len() == 32 && k.wf() && k.seed_view() == seed@ && k.account_view()
                    == account_of(seed@),
                Err(e) => seed@.len() != 32 && e == KeyError::InvalidSeedLength,
            },
    {
        if seed.len() != 32 {
            return Err(KeyError::InvalidSeedLength);
        }
        let account = derive_account(&seed);
        Ok(Keypair { seed, account })
    }

    /// The derived 32-byte account identifier.
    pub fn account_bytes(&self) -> (r: &Vec<u8>)
        requires
            self.wf(),
        ensures
            r@ == self.account_view(),
            r@.len() == 32,
    {
        &self.account
    }

    /// Signs a payload: the 64-byte signature is determined by the seed
    /// and the payload alone.
    pub fn sign(&self, payload: &Vec<u8>) -> (r: Vec<u8>)
        requires
            self.wf(),
        ensures
            r@ == signature_of(self.seed_view(), payload@),
            r@.len() == 64,
    {
        sign_payload(&self.seed, payload)
    }
}

/// Key derivation is deterministic: two well-formed keypairs made from
/// the same seed carry the same account identifier.
pub proof fn lemma_same_seed_same_account(k1: Keypair, k2: Keypair)
    requires
        k1.wf(),
        k2.wf(),
        k1.seed_view() == k2.seed_view(),
    ensures
        k1.account_view() == k2.account_view(),
{
}

} // verus!
