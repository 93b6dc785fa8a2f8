//! The fixed geometric constants of the document format. They form the
//! compatibility contract between this producer and any future reader: none
//! of them is recorded in the output, so a decoder must be built against
//! the same values.

use vstd::prelude::*;

verus! {

/// Base slice size in bytes: the payload of one optical symbol channel.
pub const CHUNK_SIZE: usize = 512;

/// Maximum payload of one symbol in byte mode at the lowest error-correction
/// class (capacity of the largest symbol version).
pub const QR_MAX_BYTES: usize = 2953;

/// Largest module-grid width a symbol can have.
pub const QR_MAX_WIDTH: usize = 177;

/// Smallest module-grid width a symbol can have.
pub const QR_MIN_WIDTH: usize = 21;

/// Final pixel width and height of one composite symbol on a page.
pub const QRCODE_SIZE: usize = 1048;

/// Symbols per page: a 2-column, 3-row grid.
pub const GRID_SIZE: usize = 6;

/// Horizontal margin left of each symbol column, in pixels.
pub const MARGIN_X: usize = 128;

/// Vertical margin above the first label strip and between symbol rows.
pub const MARGIN_Y: usize = 48;

/// Page canvas height in pixels.
pub const PAGE_HEIGHT: usize = 3508;

/// Page canvas width in pixels.
pub const PAGE_WIDTH: usize = 2480;

/// Pixel height of one rendered label strip.
pub const TEXT_HEIGHT: usize = 54;

} // verus!
