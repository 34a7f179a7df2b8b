//! Change detection between two frames of the same canvas.
//!
//! A frame is a row-major RGBA buffer, four bytes per pixel. The differencer
//! reports the smallest rectangle that holds every pixel whose bytes differ,
//! together with a tightly packed copy of the new frame inside it.

use vstd::prelude::*;
use vstd::arithmetic::div_mod::{lemma_fundamental_div_mod, lemma_fundamental_div_mod_converse};

verus! {

/// Index of the first byte of pixel `(x, y)` in a frame `width` pixels wide.
pub open spec fn pixel_offset(width: int, x: int, y: int) -> int {
    (y * width + x) * 4
}

/// Whether pixel `(x, y)` has a different byte in any of its four channels.
pub open spec fn pixel_differs(old_frame: Seq<u8>, new_frame: Seq<u8>, width: int, x: int, y: int) -> bool {
    let o = pixel_offset(width, x, y);
    old_frame[o] != new_frame[o] || old_frame[o + 1] != new_frame[o + 1]
        || old_frame[o + 2] != new_frame[o + 2] || old_frame[o + 3] != new_frame[o + 3]
}

/// Whether no pixel of a `width` x `height` frame differs.
pub open spec fn frames_agree(old_frame: Seq<u8>, new_frame: Seq<u8>, width: int, height: int) -> bool {
    forall|x: int, y: int|
        0 <= x < width && 0 <= y < height ==> !#[trigger] pixel_differs(old_frame, new_frame, width, x, y)
}

/// Byte `k` of the packed copy of the rectangle that starts at `(x0, y0)` and
/// is `w` pixels wide, cut out of a frame `width` pixels wide.
pub open spec fn crop_byte(frame: Seq<u8>, width: int, x0: int, y0: int, w: int, k: int) -> u8 {
    frame[pixel_offset(width, x0 + (k / 4) % w, y0 + (k / 4) / w) + k % 4]
}

/// The packed, row-major copy of a `w` x `h` rectangle of a frame.
pub open spec fn crop(frame: Seq<u8>, width: int, x0: int, y0: int, w: int, h: int) -> Seq<u8> {
    Seq::new((w * h * 4) as nat, |k: int| crop_byte(frame, width, x0, y0, w, k))
}

/// The part of a frame that changed, with the new pixels inside it.
#[derive(Debug)]
pub struct DirtyRegion {
    pub x: u32,
    pub y: u32,
    pub width: u32,
    pub height: u32,
    pub data: Vec<u8>,
}

impl DirtyRegion {
    /// Whether pixel `(px, py)` lies inside the rectangle.
    pub open spec fn covers(self, px: int, py: int) -> bool {
        self.x <= px < self.x + self.width && self.y <= py < self.y + self.height
    }

    /// Whether `self` is the smallest rectangle around the pixels that differ
    /// between the two frames, carrying the new frame's bytes for it.
    pub open spec fn is_diff_of(self, old_frame: Seq<u8>, new_frame: Seq<u8>, width: int, height: int) -> bool {
        &&& self.width > 0 && self.height > 0
        &&& self.x + self.width <= width && self.y + self.height <= height
        &&& forall|px: int, py: int|
            0 <= px < width && 0 <= py < height && #[trigger] pixel_differs(old_frame, new_frame, width, px, py)
                ==> self.covers(px, py)
        &&& exists|py: int| 0 <= py < height && #[trigger] pixel_differs(old_frame, new_frame, width, self.x as int, py)
        &&& exists|py: int|
            0 <= py < height && #[trigger] pixel_differs(
                old_frame,
                new_frame,
                width,
                self.x + self.width - 1,
                py,
            )
        &&& exists|px: int| 0 <= px < width && #[trigger] pixel_differs(old_frame, new_frame, width, px, self.y as int)
        &&& exists|px: int|
            0 <= px < width && #[trigger] pixel_differs(
                old_frame,
                new_frame,
                width,
                px,
                self.y + self.height - 1,
            )
        &&& self.data@ == crop(new_frame, width, self.x as int, self.y as int, self.width as int, self.height as int)
    }
}

/// A pixel inside the frame has all four of its bytes inside the buffer.
pub proof fn lemma_pixel_in_frame(width: int, height: int, x: int, y: int)
    requires
        0 <= x < width,
        0 <= y < height,
    ensures
        0 <= y * width,
        y * width + x < width * height,
        0 <= pixel_offset(width, x, y),
        pixel_offset(width, x, y) + 4 <= width * height * 4,
{
    assert(0 <= y * width) by (nonlinear_arith)
        requires
            0 <= y,
            0 <= width,
    ;
    assert(y * width + x < width * height) by (nonlinear_arith)
        requires
            0 <= x < width,
            0 <= y < height,
    ;
}

/// Position `k = (j * w + i) * 4 + c` of a packed rectangle is channel `c` of
/// the pixel in column `i` of row `j`.
pub proof fn lemma_crop_index(w: int, i: int, j: int, c: int)
    requires
        0 <= i < w,
        0 <= j,
        0 <= c < 4,
    ensures
        ((j * w + i) * 4 + c) / 4 == j * w + i,
        ((j * w + i) * 4 + c) % 4 == c,
        (j * w + i) / w == j,
        (j * w + i) % w == i,
{
    lemma_fundamental_div_mod_converse(j * w + i, w, j, i);
}

/// Every byte of a frame is one channel of one pixel: byte `k` is channel
/// `k % 4` of the pixel in column `(k / 4) % width` of row `(k / 4) / width`.
pub proof fn lemma_pixel_coords(width: int, height: int, k: int)
    requires
        0 < width,
        0 <= k < width * height * 4,
    ensures
        0 <= k % 4 < 4,
        0 <= (k / 4) % width < width,
        0 <= (k / 4) / width < height,
        k == pixel_offset(width, (k / 4) % width, (k / 4) / width) + k % 4,
{
    let p = k / 4;
    lemma_fundamental_div_mod(p, width);
    let y = p / width;
    let x = p % width;
    assert(p == width * y + x);
    assert(width * y == y * width) by (nonlinear_arith);
    assert(0 <= x < width);
    if y < 0 {
        assert(width * y <= -width) by (nonlinear_arith)
            requires
                y <= -1,
                0 < width,
        ;
    }
    if y >= height {
        assert(width * y >= width * height) by (nonlinear_arith)
            requires
                y >= height,
                0 < width,
        ;
    }
}

/// What the scan knows after it has looked at every pixel before `(x, y)` in
/// row-major order.
spec fn scan_ok(
    old_frame: Seq<u8>,
    new_frame: Seq<u8>,
    width: int,
    height: int,
    x: int,
    y: int,
    has_changes: bool,
    min_x: int,
    min_y: int,
    max_x: int,
    max_y: int,
) -> bool {
    &&& forall|px: int, py: int|
        0 <= px < width && 0 <= py < height && (py < y || (py == y && px < x)) && #[trigger] pixel_differs(
            old_frame,
            new_frame,
            width,
            px,
            py,
        ) ==> has_changes && min_x <= px <= max_x && min_y <= py <= max_y
    &&& has_changes ==> {
        &&& 0 <= min_x <= max_x < width
        &&& 0 <= min_y <= max_y < height
        &&& exists|py: int| 0 <= py < height && #[trigger] pixel_differs(old_frame, new_frame, width, min_x, py)
        &&& exists|py: int| 0 <= py < height && #[trigger] pixel_differs(old_frame, new_frame, width, max_x, py)
        &&& exists|px: int| 0 <= px < width && #[trigger] pixel_differs(old_frame, new_frame, width, px, min_y)
        &&& exists|px: int| 0 <= px < width && #[trigger] pixel_differs(old_frame, new_frame, width, px, max_y)
    }
    &&& !has_changes ==> min_x == width && min_y == height && max_x == 0 && max_y == 0
}

/// Why a frame could not be packed or unpacked.
#[derive(Debug, Clone, Copy, PartialEq, Eq, Structural)]
pub enum TransferError {
    /// The compressor reported an error.
    CompressionFailed,
    /// The decompressor reported an error.
    DecompressionFailed,
}

/// The error type of the standard input and output traits, which the
/// compressor reports its failures with.
#[verifier::external_type_specification]
#[verifier::external_body]
pub struct ExIoError(std::io::Error);

/// The LZ4 frame that the compressor makes of `data` at level four.
pub uninterp spec fn lz4_frame(data: Seq<u8>) -> Seq<u8>;

/// The bytes that the decompressor reads out of the LZ4 frame `frame`.
pub uninterp spec fn lz4_content(frame: Seq<u8>) -> Seq<u8>;

/// Compresses `data` into one LZ4 frame: an `lz4::Encoder` built by
/// `lz4::EncoderBuilder` at level four over an empty vector, fed with
/// `write_all` and closed with `finish`.
///
/// Trusted: where every step succeeds, the frame is a function of the bytes
/// and the level alone, so it has a name; nothing else is claimed of it, and
/// success is not promised. An error of the compressor is turned into a
/// message on the way, which takes the compressor's error names to be text.
#[verifier::external_body]
fn lz4_compress(data: &[u8]) -> (result: Result<Vec<u8>, std::io::Error>)
    ensures
        result matches Ok(frame) ==> frame@ == lz4_frame(data@),
{
    let mut encoder = lz4::EncoderBuilder::new().level(4).build(Vec::new())?;
    std::io::Write::write_all(&mut encoder, data)?;
    let (compressed, finished) = encoder.finish();
    finished?;
    Ok(compressed)
}

/// Decompresses one LZ4 frame: an `lz4::Decoder` over the bytes, read to its
/// end with `read_to_end`.
///
/// Trusted: where the read succeeds, what was read is a function of the bytes
/// alone, so it has a name; nothing else is claimed of it, and success is not
/// promised.
#[verifier::external_body]
fn lz4_decompress(compressed: &[u8]) -> (result: Result<Vec<u8>, std::io::Error>)
    ensures
        result matches Ok(content) ==> content@ == lz4_content(compressed@),
{
    let mut decoder = lz4::Decoder::new(compressed)?;
    let mut decompressed = Vec::new();
    std::io::Read::read_to_end(&mut decoder, &mut decompressed)?;
    Ok(decompressed)
}

/// Frame comparison and frame compression.
pub struct BufferManager;

impl BufferManager {
    /// Compresses `data` into one LZ4 frame.
    pub fn compress(data: &[u8]) -> (result: Result<Vec<u8>, TransferError>)
        ensures
            result matches Ok(frame) ==> frame@ == lz4_frame(data@),
            result matches Err(e) ==> e == TransferError::CompressionFailed,
    {
        match lz4_compress(data) {
            Ok(frame) => Ok(frame),
            Err(_) => Err(TransferError::CompressionFailed),
        }
    }

    /// Decompresses one LZ4 frame.
    pub fn decompress(compressed: &[u8]) -> (result: Result<Vec<u8>, TransferError>)
        ensures
            result matches Ok(content) ==> content@ == lz4_content(compressed@),
            result matches Err(e) ==> e == TransferError::DecompressionFailed,
    {
        match lz4_decompress(compressed) {
            Ok(content) => Ok(content),
            Err(_) => Err(TransferError::DecompressionFailed),
        }
    }

    /// Compares two frames of `width` x `height` pixels.
    ///
    /// Returns `None` exactly when no pixel differs. Otherwise the result is
    /// the minimal bounding rectangle of the differing pixels and the bytes of
    /// `new_data` inside it, row by row.
    pub fn calculate_dirty_region(old_data: &[u8], new_data: &[u8], width: u32, height: u32) -> (region: Option<
        DirtyRegion,
    >)
        requires
            old_data@.len() >= width * height * 4,
            new_data@.len() >= width * height * 4,
        ensures
            region is None <==> frames_agree(old_data@, new_data@, width as int, height as int),
            region matches Some(r) ==> r.is_diff_of(old_data@, new_data@, width as int, height as int),
    {
        let w: usize = width as usize;
        let h: usize = height as usize;
        let frame_len: usize = new_data.len();
        let mut min_x: u32 = width;
        let mut min_y: u32 = height;
        let mut max_x: u32 = 0;
        let mut max_y: u32 = 0;
        let mut has_changes: bool = false;

        let mut y: u32 = 0;
        while y < height
            invariant
                y <= height,
                w == width,
                h == height,
                frame_len == new_data@.len(),
                old_data@.len() >= width * height * 4,
                new_data@.len() >= width * height * 4,
                scan_ok(
                    old_data@,
                    new_data@,
                    width as int,
                    height as int,
                    0,
                    y as int,
                    has_changes,
                    min_x as int,
                    min_y as int,
                    max_x as int,
                    max_y as int,
                ),
            decreases height - y,
        {
            let mut x: u32 = 0;
            while x < width
                invariant
                    x <= width,
                    y < height,
                    w == width,
                    h == height,
                    frame_len == new_data@.len(),
                    old_data@.len() >= width * height * 4,
                    new_data@.len() >= width * height * 4,
                    scan_ok(
                        old_data@,
                        new_data@,
                        width as int,
                        height as int,
                        x as int,
                        y as int,
                        has_changes,
                        min_x as int,
                        min_y as int,
                        max_x as int,
                        max_y as int,
                    ),
                decreases width - x,
            {
                proof {
                    lemma_pixel_in_frame(width as int, height as int, x as int, y as int);
                }
                let offset: usize = (y as usize * w + x as usize) * 4;
                let differs: bool = old_data[offset] != new_data[offset] || old_data[offset + 1] != new_data[offset
                    + 1] || old_data[offset + 2] != new_data[offset + 2] || old_data[offset + 3] != new_data[offset
                    + 3];
                assert(differs == pixel_differs(old_data@, new_data@, width as int, x as int, y as int));
                if differs {
                    has_changes = true;
                    if x < min_x {
                        min_x = x;
                    }
                    if y < min_y {
                        min_y = y;
                    }
                    if x > max_x {
                        max_x = x;
                    }
                    if y > max_y {
                        max_y = y;
                    }
                }
                x = x + 1;
            }
            y = y + 1;
        }

        if !has_changes {
            return None;
        }
        let region_width: u32 = max_x - min_x + 1;
        let region_height: u32 = max_y - min_y + 1;
        let rw: usize = region_width as usize;
        let rh: usize = region_height as usize;
        let x0: usize = min_x as usize;
        let y0: usize = min_y as usize;
        let mut data: Vec<u8> = Vec::new();

        let mut j: usize = 0;
        while j < rh
            invariant
                j <= rh,
                w == width,
                h == height,
                0 < rw,
                x0 + rw <= w,
                y0 + rh <= h,
                frame_len == new_data@.len(),
                new_data@.len() >= w * h * 4,
                data@.len() == j * rw * 4,
                forall|k: int|
                    0 <= k < data@.len() ==> data@[k] == crop_byte(
                        new_data@,
                        w as int,
                        x0 as int,
                        y0 as int,
                        rw as int,
                        k,
                    ),
            decreases rh - j,
        {
            let mut i: usize = 0;
            while i < rw
                invariant
                    i <= rw,
                    j < rh,
                    w == width,
                    h == height,
                    0 < rw,
                    x0 + rw <= w,
                    y0 + rh <= h,
                    frame_len == new_data@.len(),
                    new_data@.len() >= w * h * 4,
                    data@.len() == (j * rw + i) * 4,
                    forall|k: int|
                        0 <= k < data@.len() ==> data@[k] == crop_byte(
                            new_data@,
                            w as int,
                            x0 as int,
                            y0 as int,
                            rw as int,
                            k,
                        ),
                decreases rw - i,
            {
                proof {
                    lemma_pixel_in_frame(w as int, h as int, x0 + i, y0 + j);
                    lemma_crop_index(rw as int, i as int, j as int, 0);
                    lemma_crop_index(rw as int, i as int, j as int, 1);
                    lemma_crop_index(rw as int, i as int, j as int, 2);
                    lemma_crop_index(rw as int, i as int, j as int, 3);
                }
                let offset: usize = ((y0 + j) * w + (x0 + i)) * 4;
                data.push(new_data[offset]);
                data.push(new_data[offset + 1]);
                data.push(new_data[offset + 2]);
                data.push(new_data[offset + 3]);
                i = i + 1;
                assert((j * rw + i) * 4 == (j * rw + (i - 1)) * 4 + 4) by (nonlinear_arith);
            }
            assert((j * rw + rw) * 4 == (j + 1) * rw * 4) by (nonlinear_arith);
            j = j + 1;
        }
        assert(data@.len() == rw * rh * 4) by (nonlinear_arith)
            requires
                data@.len() == rh * rw * 4,
        ;
        assert(data@ =~= crop(new_data@, w as int, x0 as int, y0 as int, rw as int, rh as int));
        proof {
            let right_y = choose|py: int|
                0 <= py < height && #[trigger] pixel_differs(old_data@, new_data@, width as int, max_x as int, py);
            assert(pixel_differs(old_data@, new_data@, width as int, min_x + region_width - 1, right_y));
            let bottom_x = choose|px: int|
                0 <= px < width && #[trigger] pixel_differs(old_data@, new_data@, width as int, px, max_y as int);
            assert(pixel_differs(old_data@, new_data@, width as int, bottom_x, min_y + region_height - 1));
        }
        Some(DirtyRegion { x: min_x, y: min_y, width: region_width, height: region_height, data })
    }
}

} // verus!
