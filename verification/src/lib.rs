//! Client-side construction of threshold-authorized minting records:
//! deterministic unsigned prefixes, canonical multi-party signature
//! collection, memo annotations for transaction outputs, and the
//! canonical transaction-file form that ties them together.

pub mod address;
pub mod bytes;
pub mod config_parse;
pub mod crypto;
pub mod errors;
pub mod hexcode;
pub mod jsonlit;
pub mod keys;
pub mod lexorder;
pub mod memo;
pub mod multisig;
pub mod prefix;
pub mod signer_set;
pub mod tx;
pub mod txfile;
