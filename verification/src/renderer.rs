//! The geometry of an off-screen render target: its size, and the layout of
//! the buffer that its pixels are read back through.

use vstd::prelude::*;
use crate::texture::{is_decimal_u32, MAX_TEXTURE_HEIGHT, MAX_TEXTURE_WIDTH};

verus! {

/// The number of bytes that a row of a read-back buffer must be a multiple of.
pub const ROW_ALIGNMENT: u32 = 256;

/// Why an off-screen render was refused.
#[derive(Debug, Clone, PartialEq, Eq)]
pub enum OffscreenRenderError {
    DeviceNotInitialized,
    QueueNotInitialized,
    TextureCreationFailed(String),
    BufferCreationFailed(String),
    RenderingFailed(String),
    BufferReadFailed(String),
    InvalidDimensions(u32, u32),
}

impl OffscreenRenderError {
    /// Whether `text` is the message of the error.
    pub open spec fn is_message(self, text: Seq<char>) -> bool {
        match self {
            OffscreenRenderError::DeviceNotInitialized => text == "wgpu Device が初期化されていません"@,
            OffscreenRenderError::QueueNotInitialized => text == "wgpu Queue が初期化されていません"@,
            OffscreenRenderError::TextureCreationFailed(msg) => text == "テクスチャ作成に失敗しました: "@ + msg@,
            OffscreenRenderError::BufferCreationFailed(msg) => text == "バッファ作成に失敗しました: "@ + msg@,
            OffscreenRenderError::RenderingFailed(msg) => text == "レンダリングに失敗しました: "@ + msg@,
            OffscreenRenderError::BufferReadFailed(msg) => text == "バッファ読み取りに失敗しました: "@ + msg@,
            OffscreenRenderError::InvalidDimensions(width, height) => exists|w: Seq<char>, h: Seq<char>|
                is_decimal_u32(width, w) && is_decimal_u32(height, h) && text == "無効な寸法です: "@ + w + "x"@ + h,
        }
    }

    /// The message of the error.
    pub fn to_string(&self) -> (message: String)
        ensures
            self.is_message(message@),
    {
        match self {
            OffscreenRenderError::DeviceNotInitialized => "wgpu Device が初期化されていません".to_string(),
            OffscreenRenderError::QueueNotInitialized => "wgpu Queue が初期化されていません".to_string(),
            OffscreenRenderError::TextureCreationFailed(msg) => "テクスチャ作成に失敗しました: ".to_string().concat(
                msg.as_str(),
            ),
            OffscreenRenderError::BufferCreationFailed(msg) => "バッファ作成に失敗しました: ".to_string().concat(
                msg.as_str(),
            ),
            OffscreenRenderError::RenderingFailed(msg) => "レンダリングに失敗しました: ".to_string().concat(
                msg.as_str(),
            ),
            OffscreenRenderError::BufferReadFailed(msg) => "バッファ読み取りに失敗しました: ".to_string().concat(
                msg.as_str(),
            ),
            OffscreenRenderError::InvalidDimensions(width, height) => {
                let w = width.to_string();
                let h = height.to_string();
                assert(is_decimal_u32(*width, w@));
                assert(is_decimal_u32(*height, h@));
                "無効な寸法です: ".to_string().concat(w.as_str()).concat("x").concat(h.as_str())
            },
        }
    }
}

/// The bytes of a row of `width` RGBA pixels, rounded up to the alignment.
pub open spec fn padded_row_bytes(width: int) -> int {
    ((width * 4 + ROW_ALIGNMENT - 1) / (ROW_ALIGNMENT as int)) * ROW_ALIGNMENT
}

/// The padded row is the smallest multiple of the alignment that holds the
/// pixels of the row.
pub proof fn lemma_padded_row_bytes(width: int)
    requires
        0 <= width,
    ensures
        padded_row_bytes(width) % (ROW_ALIGNMENT as int) == 0,
        width * 4 <= padded_row_bytes(width) < width * 4 + ROW_ALIGNMENT,
{
    let n = width * 4 + 255;
    assert(n == 256 * (n / 256) + n % 256);
    assert(((n / 256) * 256) % 256 == 0) by (nonlinear_arith);
}

/// Byte `k` of row `y` of a buffer whose rows are `stride` bytes apart.
pub open spec fn row_byte(buffer: Seq<u8>, stride: int, y: int, k: int) -> u8 {
    buffer[y * stride + k]
}

/// Whether `pixels` holds the rows of `mapped` without their padding: row
/// after row, the first `row` bytes of each padded row.
pub open spec fn is_unpadded(pixels: Seq<u8>, mapped: Seq<u8>, row: int, height: int, padded: int) -> bool {
    &&& pixels.len() == row * height
    &&& forall|y: int, k: int|
        0 <= y < height && 0 <= k < row ==> #[trigger] row_byte(pixels, row, y, k) == row_byte(mapped, padded, y, k)
}

/// A byte of an earlier row, or an earlier byte of the same row, comes
/// earlier in the buffer, and every byte of a row lies within the rows.
proof fn lemma_row_order(stride: int, height: int, y0: int, k0: int, y1: int, k1: int)
    requires
        0 <= k0 < stride,
        0 <= k1 <= stride,
        0 <= y0,
        y0 < y1 || (y0 == y1 && k0 < k1),
        y1 < height,
    ensures
        0 <= y0 * stride + k0 < y1 * stride + k1,
        y1 * stride + k1 <= stride * height,
{
    assert(0 <= y0 * stride) by (nonlinear_arith)
        requires
            0 <= y0,
            0 <= stride,
    ;
    if y0 < y1 {
        assert(y0 * stride + stride <= y1 * stride) by (nonlinear_arith)
            requires
                y0 + 1 <= y1,
                0 <= stride,
        ;
    }
    assert(y1 * stride + stride <= stride * height) by (nonlinear_arith)
        requires
            y1 + 1 <= height,
            0 <= stride,
    ;
}

/// The pixels of a buffer that was read back through padded rows: the
/// padding at the end of each row is left out.
pub fn unpad_rows(mapped: &[u8], width: u32, height: u32, padded: u32) -> (pixels: Vec<u8>)
    requires
        padded >= width * 4,
        mapped@.len() >= padded * height,
    ensures
        is_unpadded(pixels@, mapped@, width * 4, height as int, padded as int),
{
    let mut pixels: Vec<u8> = Vec::new();
    let row: usize = width as usize * 4;
    let stride: usize = padded as usize;
    let rows: usize = height as usize;
    let total: usize = mapped.len();
    let mut y: usize = 0;
    while y < rows
        invariant
            y <= rows,
            row == width * 4,
            stride == padded,
            rows == height,
            row <= stride,
            total == mapped@.len(),
            mapped@.len() >= stride * rows,
            pixels@.len() == y * row,
            forall|yy: int, kk: int|
                0 <= yy < y && 0 <= kk < row ==> #[trigger] row_byte(pixels@, row as int, yy, kk) == row_byte(
                    mapped@,
                    stride as int,
                    yy,
                    kk,
                ),
        decreases rows - y,
    {
        let mut k: usize = 0;
        while k < row
            invariant
                y < rows,
                k <= row,
                row == width * 4,
                stride == padded,
                rows == height,
                row <= stride,
                total == mapped@.len(),
                mapped@.len() >= stride * rows,
                pixels@.len() == y * row + k,
                forall|yy: int, kk: int|
                    0 <= kk < row && (0 <= yy < y || (yy == y && kk < k)) ==> #[trigger] row_byte(
                        pixels@,
                        row as int,
                        yy,
                        kk,
                    ) == row_byte(mapped@, stride as int, yy, kk),
            decreases row - k,
        {
            proof {
                lemma_row_order(stride as int, rows as int, y as int, k as int, y as int, stride as int);
            }
            let ghost before = pixels@;
            pixels.push(mapped[y * stride + k]);
            proof {
                assert forall|yy: int, kk: int|
                    0 <= kk < row && (0 <= yy < y || (yy == y && kk < k + 1)) implies #[trigger] row_byte(
                    pixels@,
                    row as int,
                    yy,
                    kk,
                ) == row_byte(mapped@, stride as int, yy, kk) by {
                    if yy == y && kk == k {
                    } else {
                        lemma_row_order(row as int, rows as int, yy, kk, y as int, k as int);
                        assert(pixels@[yy * row + kk] == before[yy * row + kk]);
                        assert(row_byte(before, row as int, yy, kk) == row_byte(mapped@, stride as int, yy, kk));
                    }
                }
            }
            k = k + 1;
        }
        proof {
            assert((y + 1) * row == y * row + row) by (nonlinear_arith);
        }
        y = y + 1;
    }
    proof {
        assert(rows * row == row * rows) by (nonlinear_arith);
    }
    pixels
}

/// Whether a render target of this size is accepted.
pub open spec fn valid_target(width: u32, height: u32) -> bool {
    0 < width <= MAX_TEXTURE_WIDTH && 0 < height <= MAX_TEXTURE_HEIGHT
}

/// An off-screen render target. The device objects that belong to it are
/// kept by whoever owns the device; `initialized` says whether they exist.
#[derive(Debug, Clone, Copy, PartialEq, Eq, Structural)]
pub struct OffscreenRenderer {
    pub width: u32,
    pub height: u32,
    pub padded_bytes_per_row: u32,
    pub initialized: bool,
}

impl OffscreenRenderer {
    /// The size is acceptable and the row layout belongs to it.
    pub open spec fn wf(self) -> bool {
        valid_target(self.width, self.height) && self.padded_bytes_per_row == padded_row_bytes(self.width as int)
    }

    /// A render target of the given size, without device objects. A side
    /// that is zero or above the supported maximum is refused.
    pub fn new(width: u32, height: u32) -> (result: Result<OffscreenRenderer, OffscreenRenderError>)
        ensures
            !valid_target(width, height) ==> result == Err::<OffscreenRenderer, OffscreenRenderError>(
                OffscreenRenderError::InvalidDimensions(width, height),
            ),
            valid_target(width, height) ==> result == Ok::<OffscreenRenderer, OffscreenRenderError>(
                OffscreenRenderer {
                    width,
                    height,
                    padded_bytes_per_row: padded_row_bytes(width as int) as u32,
                    initialized: false,
                },
            ),
            result matches Ok(r) ==> r.wf(),
    {
        if width == 0 || height == 0 || width > MAX_TEXTURE_WIDTH || height > MAX_TEXTURE_HEIGHT {
            return Err(OffscreenRenderError::InvalidDimensions(width, height));
        }
        proof {
            lemma_padded_row_bytes(width as int);
        }
        let unpadded_bytes_per_row: u32 = width * 4;
        let padded_bytes_per_row: u32 = (unpadded_bytes_per_row + ROW_ALIGNMENT - 1) / ROW_ALIGNMENT * ROW_ALIGNMENT;
        Ok(OffscreenRenderer { width, height, padded_bytes_per_row, initialized: false })
    }

    /// Width and height.
    pub fn dimensions(&self) -> (size: (u32, u32))
        ensures
            size == (self.width, self.height),
    {
        (self.width, self.height)
    }

    /// The number of bytes of the read-back buffer: one padded row for each
    /// row of pixels.
    pub fn buffer_size(&self) -> (size: u64)
        ensures
            size == self.padded_bytes_per_row * self.height,
    {
        assert(self.padded_bytes_per_row * self.height <= 0xffff_ffff * 0xffff_ffff) by (nonlinear_arith)
            requires
                0 <= self.padded_bytes_per_row <= 0xffff_ffff,
                0 <= self.height <= 0xffff_ffff,
        ;
        self.padded_bytes_per_row as u64 * self.height as u64
    }

    /// Records that the device objects of the target exist.
    pub fn mark_initialized(&mut self)
        ensures
            *final(self) == (OffscreenRenderer { initialized: true, ..*old(self) }),
    {
        self.initialized = true;
    }

    /// Gives the target a new size. Its device objects no longer fit and are
    /// given up. A side that is zero or above the supported maximum is
    /// refused, and nothing changes.
    pub fn resize(&mut self, width: u32, height: u32) -> (result: Result<(), OffscreenRenderError>)
        ensures
            !valid_target(width, height) ==> result == Err::<(), OffscreenRenderError>(
                OffscreenRenderError::InvalidDimensions(width, height),
            ) && *final(self) == *old(self),
            valid_target(width, height) ==> result == Ok::<(), OffscreenRenderError>(()) && *final(self) == (
            OffscreenRenderer {
                width,
                height,
                padded_bytes_per_row: padded_row_bytes(width as int) as u32,
                initialized: false,
            }) && final(self).wf(),
    {
        if width == 0 || height == 0 || width > MAX_TEXTURE_WIDTH || height > MAX_TEXTURE_HEIGHT {
            return Err(OffscreenRenderError::InvalidDimensions(width, height));
        }
        proof {
            lemma_padded_row_bytes(width as int);
        }
        self.width = width;
        self.height = height;
        let unpadded_bytes_per_row: u32 = width * 4;
        self.padded_bytes_per_row = (unpadded_bytes_per_row + ROW_ALIGNMENT - 1) / ROW_ALIGNMENT * ROW_ALIGNMENT;
        self.initialized = false;
        Ok(())
    }
}

} // verus!
