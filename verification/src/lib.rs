//! Verified core of the RemitWise contracts: data migration guards and
//! checksums, the emergency killswitch, the insurance policy registry and the
//! family multisig wallet, each modelled as plain state with exact contracts.

pub mod common;
pub mod text;
pub mod ordmap;
pub mod hex;
pub mod migration;
pub mod tracker;
pub mod csv_io;
pub mod encrypted;
pub mod killswitch;
pub mod insurance;
pub mod wallet;
