//! Decoder for the UF2 firmware-image container format: a stream of
//! fixed-size 512-byte blocks, each framed by magic numbers and carrying a
//! payload fragment together with its position in the transfer.

pub mod uf2;
