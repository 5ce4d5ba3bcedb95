use vstd::prelude::*;

verus! {

/// The x25519 public key that belongs to a private key.
pub uninterp spec fn public_key_of(private: Seq<u8>) -> Seq<u8>;

/// Standard padded base64 text of a key.
pub uninterp spec fn base64_text(key: Seq<u8>) -> Seq<char>;

/// The key that a text decodes to, if it is a valid key encoding.
pub uninterp spec fn parsed_key(text: Seq<char>) -> Option<Seq<u8>>;

/// Relies on wireguard_keys::Privkey::generate: a fresh private key drawn from
/// the operating system's random source.
#[verifier::external_body]
fn random_private_key() -> (r: [u8; 32]) {
    *wireguard_keys::Privkey::generate()
}

/// Relies on wireguard_keys::Privkey::pubkey: the public key derived from the
/// private key bytes.
#[verifier::external_body]
fn derive_public_key(private: &[u8; 32]) -> (r: [u8; 32])
    ensures
        r@ == public_key_of(private@),
{
    *wireguard_keys::Privkey::new(*private).pubkey()
}

/// Relies on wireguard_keys::Pubkey::to_base64: padded standard base64 of the
/// 32 key bytes.
#[verifier::external_body]
pub(crate) fn encode_key(key: &[u8; 32]) -> (r: String)
    ensures
        r@ == base64_text(key@),
{
    wireguard_keys::Pubkey::new(*key).to_base64()
}

/// Relies on wireguard_keys::Pubkey::parse: decodes a key from its text, or fails.
#[verifier::external_body]
pub(crate) fn decode_key(text: &str) -> (r: Option<[u8; 32]>)
    ensures
        match r {
            Some(k) => parsed_key(text@) == Some(k@),
            None => parsed_key(text@) is None,
        },
{
    match wireguard_keys::Pubkey::parse(text) {
        Ok(k) => Some(*k),
        Err(_) => None,
    }
}

/// A WireGuard key pair. The private key never leaves this machine.
#[derive(Clone, Copy, Debug)]
pub struct Keypair {
    pub private: [u8; 32],
    pub public: [u8; 32],
}

impl Keypair {
    pub open spec fn wf(&self) -> bool {
        self.public@ == public_key_of(self.private@)
    }

    /// A fresh key pair.
    pub fn generate() -> (r: Keypair)
        ensures
            r.wf(),
    {
        let private = random_private_key();
        let public = derive_public_key(&private);
        Keypair { private, public }
    }

    /// The pair that belongs to a given private key.
    pub fn from_private(private: [u8; 32]) -> (r: Keypair)
        ensures
            r.wf(),
            r.private == private,
    {
        let public = derive_public_key(&private);
        Keypair { private, public }
    }

    /// The public key as base64 text, as the key-exchange endpoint takes it.
    pub fn public_text(&self) -> (r: String)
        ensures
            r@ == base64_text(self.public@),
    {
        encode_key(&self.public)
    }
}

} // verus!
