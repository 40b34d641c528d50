//! Transaction layer of a hybrid UTXO/account ledger: hierarchical key
//! derivation, tagged addresses, the transaction/witness/certificate data
//! model with its canonical byte encodings, linear fees, and block decoding.
//!
//! The elliptic-curve primitives, the Blake2b-256 digest, the bech32 string
//! codec and the operating system's random source are outside collaborators;
//! every call into them goes through a small trusted wrapper whose contract
//! states what the callee's documentation promises.

pub mod account;
pub mod address;
pub mod block;
pub mod builder;
pub mod bytes;
pub mod certificate;
pub mod codec;
pub mod crypto;
pub mod error;
pub mod fee;
pub mod fragment;
pub mod keys;
pub mod primitives;
pub mod transaction;
pub mod value;
