//! Reading Mode-S "Beast" receiver streams: recovering frames from the
//! byte-stuffed wire format, checking Mode-S parity, decoding altitude codes,
//! and decoding each payload into a message record.
//!
//! - `beast`: the deframer, for a single frame or a whole buffer with the
//!   remainder carried into the next read;
//! - `stream`: what holds of reading a stream in pieces;
//! - `crc`: the parity table, residual and checksum comparison;
//! - `altitude`: 13-bit and 12-bit altitude codes;
//! - `message`: decoded messages and event records;
//! - `text`: hexadecimal and decimal rendering;
//! - `adsb`: the boundary to adsb_deku's payload decoder.
pub mod adsb;
pub mod altitude;
pub mod beast;
pub mod crc;
pub mod message;
pub mod stream;
pub mod text;
