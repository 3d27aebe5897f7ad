//! Outward face of the sponge/duplex cipher: a key held once, a fresh
//! session derived from (key, nonce) for every message.

use vstd::prelude::*;
use crate::ascon_128::Ascon128;
use crate::ascon_128::Key;
use crate::ascon_128::spec_ascon_encrypt;
use crate::ascon_128::spec_ascon_decrypt;

verus! {

pub struct AsconHead {
    pub key: Key,
}

impl AsconHead {
    pub fn new(key: Key) -> (r: AsconHead)
        ensures
            r.key == key,
    {
        AsconHead { key }
    }

    /// Encrypts `plaintext` in place and returns the sixteen-byte tag.
    pub fn encrypt(&self, nonce: &[u8], associated_data: &[u8], plaintext: &mut Vec<u8>) -> (tag:
        Vec<u8>)
        requires
            nonce@.len() == 16,
        ensures
            final(plaintext)@ == spec_ascon_encrypt(
                self.key,
                nonce@,
                associated_data@,
                old(plaintext)@,
            ).0,
            tag@ == spec_ascon_encrypt(self.key, nonce@, associated_data@, old(plaintext)@).1,
            final(plaintext)@.len() == old(plaintext)@.len(),
            tag@.len() == 16,
    {
        let mut internal = Ascon128::new(self.key, nonce);
        internal.encrypt(associated_data, plaintext)
    }

    /// Decrypts `ciphertext` in place; `Ok` exactly when the recomputed
    /// tag equals `expected_tag`.  The buffer holds the tentative
    /// plaintext whatever the outcome.
    pub fn decrypt(
        &self,
        nonce: &[u8],
        associated_data: &[u8],
        ciphertext: &mut Vec<u8>,
        expected_tag: &[u8],
    ) -> (r: Result<(), ()>)
        requires
            nonce@.len() == 16,
        ensures
            final(ciphertext)@ == spec_ascon_decrypt(
                self.key,
                nonce@,
                associated_data@,
                old(ciphertext)@,
                expected_tag@,
            ).0,
            r.is_ok() == spec_ascon_decrypt(
                self.key,
                nonce@,
                associated_data@,
                old(ciphertext)@,
                expected_tag@,
            ).1,
            final(ciphertext)@.len() == old(ciphertext)@.len(),
    {
        let mut internal = Ascon128::new(self.key, nonce);
        internal.decrypt(associated_data, ciphertext, expected_tag)
    }
}

} // verus!
