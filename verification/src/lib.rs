//! Three lightweight authenticated-encryption (AEAD) engines, verified:
//! a nonlinear-feedback shift-register stream cipher, a sponge/duplex
//! permutation cipher, and a phased (Cyclist-style) duplex cipher.
//!
//! Each engine exposes the same outward shape: construct with a 128-bit
//! key, then per message encrypt or decrypt in place under a 128-bit
//! nonce with associated data, producing or checking a 128-bit tag.

pub mod acorn_core;
pub mod acorn;
pub mod ascon_core;
pub mod ascon_128;
pub mod ascon_head;
pub mod xoodoo;
pub mod xoodyak;
pub mod xoodyak_aead;
