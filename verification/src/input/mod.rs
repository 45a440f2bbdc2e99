//! The input as it arrives: text that may be base64 or hexadecimal digits,
//! and the octets it stands for.

pub mod base64;
pub mod error;
pub mod hex;
pub mod utils;
