//! Host-side logic of a SHA3x GPU miner for the Tari network: packing of the
//! mining hash into the kernel's 64-bit words, the nonce windows of the
//! devices, the template rotation and its payout address, the search loop's
//! decisions and the status line it prints.

pub mod address;
pub mod bytes;
pub mod coinbase;
pub mod kernel;
pub mod report;
pub mod schedule;
pub mod search;
pub mod template;

pub use bytes::{copy_u64_to_u8, copy_u8_to_u64};
