//! Layers: independently editable raster surfaces.

use vstd::prelude::*;
use crate::buffer::{lemma_crop_index, lemma_pixel_coords, lemma_pixel_in_frame, pixel_offset};
use crate::commands::{BlendMode, ONE};
use crate::error::CanvasError;
use crate::ids::{fresh_id, is_random_id};
use crate::texture::{MAX_TEXTURE_HEIGHT, MAX_TEXTURE_WIDTH};

verus! {

/// A raster surface with its own opacity, visibility and blend mode.
#[derive(Debug)]
pub struct Layer {
    pub id: u128,
    pub width: u32,
    pub height: u32,
    /// Row-major RGBA, four bytes per pixel.
    pub data: Vec<u8>,
    /// Fixed-point opacity; values above one count as one.
    pub opacity: u32,
    pub visible: bool,
    pub name: String,
    pub blend_mode: BlendMode,
    /// The texture bound to the layer, if one is bound.
    pub texture_id: Option<u64>,
}

/// Byte `k` of a buffer after a change of size: the pixel that was at the
/// same place in the old buffer, or zero where there was none.
pub open spec fn resized_byte(data: Seq<u8>, old_width: int, old_height: int, width: int, k: int) -> u8 {
    let x = (k / 4) % width;
    let y = (k / 4) / width;
    if x < old_width && y < old_height {
        data[pixel_offset(old_width, x, y) + k % 4]
    } else {
        0
    }
}

/// A buffer after a change of size from `old_width` x `old_height` to
/// `width` x `height`: the common top-left rectangle is kept, the rest is
/// zero.
pub open spec fn resized(data: Seq<u8>, old_width: int, old_height: int, width: int, height: int) -> Seq<u8> {
    Seq::new((width * height * 4) as nat, |k: int| resized_byte(data, old_width, old_height, width, k))
}

/// A buffer of `n` zero bytes.
pub fn zeroed(n: usize) -> (data: Vec<u8>)
    ensures
        data@.len() == n,
        forall|k: int| 0 <= k < n ==> data@[k] == 0,
{
    let mut data: Vec<u8> = Vec::new();
    let mut i: usize = 0;
    while i < n
        invariant
            i <= n,
            data@.len() == i,
            forall|k: int| 0 <= k < i ==> data@[k] == 0,
        decreases n - i,
    {
        data.push(0);
        i = i + 1;
    }
    data
}

impl Layer {
    /// The buffer holds exactly four bytes for each pixel.
    pub open spec fn wf(&self) -> bool {
        self.data@.len() == self.width * self.height * 4
    }

    /// The four bytes of pixel `(x, y)`.
    pub open spec fn pixel(&self, x: int, y: int) -> [u8; 4] {
        let o = pixel_offset(self.width as int, x, y);
        [self.data@[o], self.data@[o + 1], self.data@[o + 2], self.data@[o + 3]]
    }

    /// A transparent, visible, fully opaque layer named "Layer" with a fresh
    /// identifier. The size must be one that `create_layer` accepts.
    pub fn new(width: u32, height: u32) -> (layer: Layer)
        requires
            valid_size(width, height),
        ensures
            layer.wf(),
            layer.width == width,
            layer.height == height,
            forall|k: int| 0 <= k < layer.data@.len() ==> layer.data@[k] == 0,
            layer.opacity == ONE,
            layer.visible,
            layer.name@ == "Layer"@,
            layer.blend_mode == BlendMode::Normal,
            layer.texture_id is None,
            is_random_id(layer.id),
    {
        proof {
            lemma_valid_size_fits(width, height);
            assert(0 <= width * height <= width * height * 4) by (nonlinear_arith)
                requires
                    0 <= width,
                    0 <= height,
            ;
        }
        let data_size: usize = width as usize * height as usize * 4;
        Layer {
            id: fresh_id(),
            width,
            height,
            data: zeroed(data_size),
            opacity: ONE,
            visible: true,
            name: "Layer".to_string(),
            blend_mode: BlendMode::Normal,
            texture_id: None,
        }
    }

    /// Makes every pixel transparent black.
    pub fn clear(&mut self)
        ensures
            final(self).data@.len() == old(self).data@.len(),
            forall|k: int| 0 <= k < final(self).data@.len() ==> final(self).data@[k] == 0,
            final(self).id == old(self).id,
            final(self).width == old(self).width,
            final(self).height == old(self).height,
            final(self).opacity == old(self).opacity,
            final(self).visible == old(self).visible,
            final(self).name == old(self).name,
            final(self).blend_mode == old(self).blend_mode,
            final(self).texture_id == old(self).texture_id,
    {
        let n = self.data.len();
        self.data = zeroed(n);
    }

    /// Changes the size of the layer to another accepted size. Pixels of the
    /// common top-left rectangle stay where they are, all others are
    /// transparent black. A bound texture no longer fits, so the binding is
    /// dropped.
    pub fn resize(&mut self, width: u32, height: u32)
        requires
            old(self).wf(),
            valid_size(width, height),
        ensures
            final(self).wf(),
            final(self).width == width,
            final(self).height == height,
            final(self).data@ == resized(
                old(self).data@,
                old(self).width as int,
                old(self).height as int,
                width as int,
                height as int,
            ),
            final(self).texture_id is None,
            final(self).id == old(self).id,
            final(self).opacity == old(self).opacity,
            final(self).visible == old(self).visible,
            final(self).name == old(self).name,
            final(self).blend_mode == old(self).blend_mode,
    {
        proof {
            lemma_valid_size_fits(width, height);
            assert(0 <= width * height <= width * height * 4) by (nonlinear_arith)
                requires
                    0 <= width,
                    0 <= height,
            ;
        }
        let w: usize = width as usize;
        let h: usize = height as usize;
        let ow: usize = self.width as usize;
        let oh: usize = self.height as usize;
        let new_size: usize = w * h * 4;
        let old_size: usize = self.data.len();
        let mut new_data = zeroed(new_size);
        let min_width: usize = if ow < w { ow } else { w };
        let min_height: usize = if oh < h { oh } else { h };
        let ghost src = self.data@;

        let mut y: usize = 0;
        while y < min_height
            invariant
                y <= min_height,
                min_width <= w && min_width <= ow,
                min_height <= h && min_height <= oh,
                w == width && h == height,
                new_data@.len() == w * h * 4,
                new_size == w * h * 4,
                src.len() == ow * oh * 4,
                src.len() == old_size,
                self.data@ == src,
                forall|k: int|
                    0 <= k < new_data@.len() ==> #[trigger] new_data@[k] == (if (k / 4) / (w as int) < y && (k / 4) % (
                    w as int) < min_width {
                        resized_byte(src, ow as int, oh as int, w as int, k)
                    } else {
                        0u8
                    }),
            decreases min_height - y,
        {
            let mut x: usize = 0;
            while x < min_width
                invariant
                    x <= min_width,
                    y < min_height,
                    min_width <= w && min_width <= ow,
                    min_height <= h && min_height <= oh,
                    w == width && h == height,
                    new_data@.len() == w * h * 4,
                    new_size == w * h * 4,
                    src.len() == ow * oh * 4,
                    src.len() == old_size,
                    self.data@ == src,
                    forall|k: int|
                        0 <= k < new_data@.len() ==> #[trigger] new_data@[k] == (if ((k / 4) / (w as int) < y || ((k
                            / 4) / (w as int) == y && (k / 4) % (w as int) < x)) && (k / 4) % (w as int)
                            < min_width {
                            resized_byte(src, ow as int, oh as int, w as int, k)
                        } else {
                            0u8
                        }),
                decreases min_width - x,
            {
                proof {
                    lemma_pixel_in_frame(w as int, h as int, x as int, y as int);
                    lemma_pixel_in_frame(ow as int, oh as int, x as int, y as int);
                }
                let src_offset: usize = (y * ow + x) * 4;
                let dst_offset: usize = (y * w + x) * 4;
                let ghost before = new_data@;
                let b0 = self.data[src_offset];
                let b1 = self.data[src_offset + 1];
                let b2 = self.data[src_offset + 2];
                let b3 = self.data[src_offset + 3];
                new_data.set(dst_offset, b0);
                new_data.set(dst_offset + 1, b1);
                new_data.set(dst_offset + 2, b2);
                new_data.set(dst_offset + 3, b3);
                proof {
                    lemma_crop_index(w as int, x as int, y as int, 0);
                    lemma_crop_index(w as int, x as int, y as int, 1);
                    lemma_crop_index(w as int, x as int, y as int, 2);
                    lemma_crop_index(w as int, x as int, y as int, 3);
                    assert forall|k: int| 0 <= k < new_data@.len() implies #[trigger] new_data@[k] == (if ((k / 4) / (
                    w as int) < y || ((k / 4) / (w as int) == y && (k / 4) % (w as int) < x + 1)) && (k / 4) % (
                    w as int) < min_width {
                        resized_byte(src, ow as int, oh as int, w as int, k)
                    } else {
                        0u8
                    }) by {
                        lemma_pixel_coords(w as int, h as int, k);
                        if dst_offset <= k < dst_offset + 4 {
                        } else {
                            assert(new_data@[k] == before[k]);
                        }
                    }
                }
                x = x + 1;
            }
            y = y + 1;
        }
        proof {
            assert forall|k: int| 0 <= k < new_data@.len() implies new_data@[k] == resized_byte(
                src,
                ow as int,
                oh as int,
                w as int,
                k,
            ) by {
                lemma_pixel_coords(w as int, h as int, k);
            }
            assert(new_data@ =~= resized(src, ow as int, oh as int, w as int, h as int));
        }
        self.width = width;
        self.height = height;
        self.data = new_data;
        self.texture_id = None;
    }

    /// Writes one pixel. A position outside the layer is ignored.
    pub fn set_pixel(&mut self, x: u32, y: u32, color: [u8; 4])
        requires
            old(self).wf(),
        ensures
            final(self).wf(),
            final(self).width == old(self).width,
            final(self).height == old(self).height,
            final(self).id == old(self).id,
            final(self).opacity == old(self).opacity,
            final(self).visible == old(self).visible,
            final(self).name == old(self).name,
            final(self).blend_mode == old(self).blend_mode,
            final(self).texture_id == old(self).texture_id,
            x >= old(self).width || y >= old(self).height ==> final(self).data@ == old(self).data@,
            x < old(self).width && y < old(self).height ==> final(self).data@ == old(self).data@.update(
                pixel_offset(old(self).width as int, x as int, y as int),
                color[0],
            ).update(pixel_offset(old(self).width as int, x as int, y as int) + 1, color[1]).update(
                pixel_offset(old(self).width as int, x as int, y as int) + 2,
                color[2],
            ).update(pixel_offset(old(self).width as int, x as int, y as int) + 3, color[3]),
    {
        if x >= self.width || y >= self.height {
            return ;
        }
        proof {
            lemma_pixel_in_frame(self.width as int, self.height as int, x as int, y as int);
        }
        let len: usize = self.data.len();
        assert(len == self.width * self.height * 4);
        let offset: usize = (y as usize * self.width as usize + x as usize) * 4;
        self.data.set(offset, color[0]);
        self.data.set(offset + 1, color[1]);
        self.data.set(offset + 2, color[2]);
        self.data.set(offset + 3, color[3]);
    }

    /// Reads one pixel; `None` for a position outside the layer.
    pub fn get_pixel(&self, x: u32, y: u32) -> (pixel: Option<[u8; 4]>)
        requires
            self.wf(),
        ensures
            pixel is Some <==> x < self.width && y < self.height,
            pixel matches Some(p) ==> p == self.pixel(x as int, y as int),
    {
        if x >= self.width || y >= self.height {
            return None;
        }
        proof {
            lemma_pixel_in_frame(self.width as int, self.height as int, x as int, y as int);
        }
        let len: usize = self.data.len();
        assert(len == self.width * self.height * 4);
        let offset: usize = (y as usize * self.width as usize + x as usize) * 4;
        let pixel: [u8; 4] = [self.data[offset], self.data[offset + 1], self.data[offset + 2], self.data[offset + 3]];
        Some(pixel)
    }
}

/// Whether a layer or canvas of this size is accepted.
pub open spec fn valid_size(width: u32, height: u32) -> bool {
    0 < width <= MAX_TEXTURE_WIDTH && 0 < height <= MAX_TEXTURE_HEIGHT
}

/// A layer of an accepted size has between four bytes and the bytes of the
/// largest layer.
pub proof fn lemma_valid_size_fits(width: u32, height: u32)
    requires
        valid_size(width, height),
    ensures
        4 <= width * height * 4 <= 33177600,
{
    assert(1 <= width * height <= 3840 * 2160) by (nonlinear_arith)
        requires
            0 < width <= 3840,
            0 < height <= 2160,
    ;
}

/// Whether a layer or canvas of this size is accepted.
pub fn is_valid_size(width: u32, height: u32) -> (ok: bool)
    ensures
        ok == valid_size(width, height),
{
    0 < width && width <= MAX_TEXTURE_WIDTH && 0 < height && height <= MAX_TEXTURE_HEIGHT
}

/// Creates a layer of `width` x `height` pixels, all of them transparent
/// black. A side that is zero or above the supported maximum is refused.
pub fn create_layer(width: u32, height: u32) -> (result: Result<Layer, CanvasError>)
    ensures
        !valid_size(width, height) ==> result == Err::<Layer, CanvasError>(CanvasError::InvalidDimensions),
        valid_size(width, height) ==> result is Ok,
        result matches Ok(layer) ==> {
            &&& layer.wf()
            &&& layer.width == width
            &&& layer.height == height
            &&& layer.data@.len() == width * height * 4
            &&& forall|k: int| 0 <= k < layer.data@.len() ==> layer.data@[k] == 0
            &&& layer.opacity == ONE
            &&& layer.visible
            &&& layer.blend_mode == BlendMode::Normal
            &&& layer.texture_id is None
        },
{
    if !is_valid_size(width, height) {
        return Err(CanvasError::InvalidDimensions);
    }
    Ok(Layer::new(width, height))
}

} // verus!
