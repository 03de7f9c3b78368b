//! The compact form in which blocks reach the wallet.

pub mod codec;
pub mod compact_formats;
