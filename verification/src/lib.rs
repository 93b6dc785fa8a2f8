//! Encode-side pipeline for a printable file backup: an input byte stream is
//! split into fixed-size chunks, every chunk becomes one error-corrected
//! optical symbol (optionally several colour channels multiplexed into one
//! symbol), the symbols are packed onto fixed-geometry pages, and the pages
//! are serialised as named image entries for an archive.
//!
//! Everything a future decoder relies on — chunk boundaries, chunk order,
//! channel-to-colour mapping, page geometry and entry naming — is stated in
//! the contracts of the public functions.

use vstd::prelude::*;

pub mod constants;
pub mod document;
pub mod qrcode;
pub mod raster;
pub mod utils;

verus! {

/// The encoding variant: how many independently encoded 512-byte sub-slices
/// are multiplexed into one visual symbol.
#[derive(Copy, Clone, Debug, PartialEq, Eq, Structural)]
pub enum Variant {
    /// One sub-slice, rendered monochrome.
    QRCode,
    /// Two sub-slices, tinted blue and yellow and blended.
    Color4,
    /// Three sub-slices, tinted cyan, magenta and yellow and blended.
    Color8,
}

impl Variant {
    /// Data density d: the number of sub-slices combined into one symbol.
    pub open spec fn density(self) -> nat {
        match self {
            Variant::QRCode => 1,
            Variant::Color4 => 2,
            Variant::Color8 => 3,
        }
    }
}

/// Why an encode run failed. Every failure is fatal: nothing is retried and
/// no partial document is produced.
#[derive(Copy, Clone, Debug, PartialEq, Eq, Structural)]
pub enum EncodeError {
    /// A payload exceeds the symbol format's byte-mode capacity at the fixed
    /// error-correction class.
    Capacity,
    /// An internal invariant was violated inside the adaptation layer. The
    /// format reserves this fatal kind; the library's contracts prove its
    /// own operations never produce it.
    Format,
}

} // verus!

