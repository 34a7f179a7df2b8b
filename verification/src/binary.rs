//! Frames as they travel to a display: raw or compressed bytes with their
//! size and layout.

use vstd::prelude::*;
use crate::buffer::{lz4_content, lz4_frame, BufferManager, TransferError};
use crate::canvas_state::CanvasId;

verus! {

/// The layout of the pixels of a transfer.
#[derive(Debug, Clone, Copy, PartialEq, Eq, Structural)]
pub enum ImageFormat {
    Rgba8,
    Rgb8,
}

/// The pixels of a frame or of a part of one, ready to be sent.
#[derive(Debug)]
pub struct BinaryTransfer {
    pub format: ImageFormat,
    pub width: u32,
    pub height: u32,
    /// Whether `data` is an LZ4 frame rather than the pixels themselves.
    pub compressed: bool,
    pub data: Vec<u8>,
}

/// A copy of a buffer.
pub fn copy_bytes(data: &Vec<u8>) -> (copy: Vec<u8>)
    ensures
        copy@ == data@,
{
    let mut copy: Vec<u8> = Vec::new();
    let mut i: usize = 0;
    while i < data.len()
        invariant
            i <= data@.len(),
            copy@ == data@.subrange(0, i as int),
        decreases data@.len() - i,
    {
        copy.push(data[i]);
        assert(data@.subrange(0, i as int).push(data@[i as int]) =~= data@.subrange(0, i + 1));
        i = i + 1;
    }
    assert(data@.subrange(0, data@.len() as int) =~= data@);
    copy
}

impl BinaryTransfer {
    /// A transfer of the given parts.
    pub fn from_parts(data: Vec<u8>, width: u32, height: u32, format: ImageFormat, compressed: bool) -> (transfer:
        BinaryTransfer)
        ensures
            transfer.format == format,
            transfer.width == width,
            transfer.height == height,
            transfer.compressed == compressed,
            transfer.data == data,
    {
        BinaryTransfer { format, width, height, compressed, data }
    }

    /// A transfer of raw pixels.
    pub fn new(data: Vec<u8>, width: u32, height: u32, format: ImageFormat) -> (transfer: BinaryTransfer)
        ensures
            transfer.format == format,
            transfer.width == width,
            transfer.height == height,
            !transfer.compressed,
            transfer.data == data,
    {
        BinaryTransfer::from_parts(data, width, height, format, false)
    }

    /// A transfer of pixels compressed into one LZ4 frame.
    pub fn new_compressed(data: Vec<u8>, width: u32, height: u32, format: ImageFormat) -> (result: Result<
        BinaryTransfer,
        TransferError,
    >)
        ensures
            result matches Ok(transfer) ==> transfer.format == format && transfer.width == width && transfer.height
                == height && transfer.compressed && transfer.data@ == lz4_frame(data@),
            result matches Err(e) ==> e == TransferError::CompressionFailed,
    {
        match BufferManager::compress(data.as_slice()) {
            Ok(compressed_data) => Ok(BinaryTransfer::from_parts(compressed_data, width, height, format, true)),
            Err(e) => Err(e),
        }
    }

    /// The pixels of the transfer: its bytes as they are if it is raw, the
    /// content of its LZ4 frame if it is compressed.
    pub fn decompress(&self) -> (result: Result<Vec<u8>, TransferError>)
        ensures
            !self.compressed ==> result is Ok && result->Ok_0@ == self.data@,
            self.compressed ==> (result matches Ok(pixels) ==> pixels@ == lz4_content(self.data@)),
            self.compressed ==> (result matches Err(e) ==> e == TransferError::DecompressionFailed),
    {
        if self.compressed {
            BufferManager::decompress(self.data.as_slice())
        } else {
            Ok(copy_bytes(&self.data))
        }
    }
}

/// A rendered frame of a canvas at a point in time.
#[derive(Debug)]
pub struct RenderResult {
    pub canvas_id: CanvasId,
    pub image_data: BinaryTransfer,
    /// Milliseconds since the epoch.
    pub timestamp: u64,
}

impl RenderResult {
    /// The raw frame of a canvas.
    pub fn raw(canvas_id: CanvasId, image_data: Vec<u8>, width: u32, height: u32, timestamp: u64) -> (result:
        RenderResult)
        ensures
            result.canvas_id == canvas_id,
            result.timestamp == timestamp,
            result.image_data.format == ImageFormat::Rgba8,
            result.image_data.width == width,
            result.image_data.height == height,
            !result.image_data.compressed,
            result.image_data.data == image_data,
    {
        RenderResult {
            canvas_id,
            image_data: BinaryTransfer::new(image_data, width, height, ImageFormat::Rgba8),
            timestamp,
        }
    }

    /// The compressed frame of a canvas.
    pub fn compressed(canvas_id: CanvasId, image_data: Vec<u8>, width: u32, height: u32, timestamp: u64) -> (result:
        Result<RenderResult, TransferError>)
        ensures
            result matches Ok(r) ==> r.canvas_id == canvas_id && r.timestamp == timestamp && r.image_data.format
                == ImageFormat::Rgba8 && r.image_data.width == width && r.image_data.height == height
                && r.image_data.compressed && r.image_data.data@ == lz4_frame(image_data@),
            result matches Err(e) ==> e == TransferError::CompressionFailed,
    {
        match BinaryTransfer::new_compressed(image_data, width, height, ImageFormat::Rgba8) {
            Ok(transfer) => Ok(RenderResult { canvas_id, image_data: transfer, timestamp }),
            Err(e) => Err(e),
        }
    }
}

} // verus!
