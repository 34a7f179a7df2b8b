//! Incremental updates: what has to be sent of a frame, given the frame
//! that was sent before.

use std::collections::HashMap;
use vstd::prelude::*;
use crate::binary::{BinaryTransfer, ImageFormat};
use crate::buffer::{frames_agree, BufferManager, DirtyRegion};
use crate::canvas_state::CanvasId;

verus! {

/// The changed part of a frame, ready to be sent.
#[derive(Debug)]
pub struct DirtyRegionData {
    pub x: u32,
    pub y: u32,
    pub width: u32,
    pub height: u32,
    pub image_data: BinaryTransfer,
}

/// The answer to a request for an update of a canvas.
#[derive(Debug)]
pub struct DiffRenderResult {
    pub canvas_id: CanvasId,
    /// The part that changed; `None` if nothing did.
    pub dirty_region: Option<DirtyRegionData>,
    /// Milliseconds since the epoch.
    pub timestamp: u64,
}

/// The frames that were sent last, by canvas.
pub struct RenderCache {
    cache: HashMap<u128, Vec<u8>>,
}

/// Whether an update against the frame `previous` has nothing to send: a
/// frame of the same size was sent before and no pixel differs from it.
pub open spec fn nothing_changed(previous: Option<Seq<u8>>, current: Seq<u8>, width: int, height: int) -> bool {
    match previous {
        Some(p) => p.len() == current.len() && frames_agree(p, current, width, height),
        None => false,
    }
}

/// Whether `update` is what has to be sent of `current` after `previous`:
/// nothing if nothing changed, the whole frame if no frame of this size was
/// sent before, and otherwise the smallest rectangle around the pixels that
/// differ, with the pixels of `current` in it.
pub open spec fn is_update(
    update: Option<DirtyRegionData>,
    previous: Option<Seq<u8>>,
    current: Seq<u8>,
    width: u32,
    height: u32,
) -> bool {
    if nothing_changed(previous, current, width as int, height as int) {
        update is None
    } else {
        &&& update is Some
        &&& update->0.image_data.format == ImageFormat::Rgba8
        &&& !update->0.image_data.compressed
        &&& update->0.image_data.width == update->0.width
        &&& update->0.image_data.height == update->0.height
        &&& if previous is Some && previous->0.len() == current.len() {
            (DirtyRegion {
                x: update->0.x,
                y: update->0.y,
                width: update->0.width,
                height: update->0.height,
                data: update->0.image_data.data,
            }).is_diff_of(previous->0, current, width as int, height as int)
        } else {
            update->0.x == 0 && update->0.y == 0 && update->0.width == width && update->0.height == height
                && update->0.image_data.data@ == current
        }
    }
}

/// Idempotence: once a frame has been sent, an update against it with the
/// same frame has nothing to send. So of two requests in a row for a canvas
/// whose frame has not changed, the second reports no region, whatever the
/// first reported.
pub proof fn lemma_repeated_update_is_empty(
    update: Option<DirtyRegionData>,
    current: Seq<u8>,
    width: u32,
    height: u32,
)
    requires
        is_update(update, Some(current), current, width, height),
    ensures
        update is None,
{
    assert(nothing_changed(Some(current), current, width as int, height as int));
}

impl RenderCache {
    /// The frame that was sent last for a canvas, if one was.
    pub closed spec fn cached(&self, canvas_id: CanvasId) -> Option<Seq<u8>> {
        if self.cache@.contains_key(canvas_id.0) {
            Some(self.cache@[canvas_id.0]@)
        } else {
            None
        }
    }

    /// A cache without frames.
    pub fn new() -> (cache: RenderCache)
        ensures
            forall|id: CanvasId| cache.cached(id) is None,
    {
        RenderCache { cache: HashMap::new() }
    }

    /// A copy of the frame that was sent last for a canvas.
    pub fn get(&self, canvas_id: &CanvasId) -> (frame: Option<Vec<u8>>)
        ensures
            frame is Some <==> self.cached(*canvas_id) is Some,
            frame matches Some(f) ==> Some(f@) == self.cached(*canvas_id),
    {
        broadcast use vstd::std_specs::hash::group_hash_axioms;

        match self.cache.get(&canvas_id.0) {
            Some(frame) => Some(crate::binary::copy_bytes(frame)),
            None => None,
        }
    }

    /// Remembers `data` as the frame that was sent last for a canvas.
    pub fn set(&mut self, canvas_id: CanvasId, data: Vec<u8>)
        ensures
            final(self).cached(canvas_id) == Some(data@),
            forall|other: CanvasId| other != canvas_id ==> final(self).cached(other) == old(self).cached(other),
    {
        broadcast use vstd::std_specs::hash::group_hash_axioms;

        self.cache.insert(canvas_id.0, data);
    }

    /// Forgets the frame of a canvas.
    pub fn remove(&mut self, canvas_id: &CanvasId)
        ensures
            final(self).cached(*canvas_id) is None,
            forall|other: CanvasId| other != *canvas_id ==> final(self).cached(other) == old(self).cached(other),
    {
        broadcast use vstd::std_specs::hash::group_hash_axioms;

        self.cache.remove(&canvas_id.0);
    }

    /// What has to be sent of the frame `current` of a canvas, given what
    /// the cache holds for it.
    pub fn update_for(&self, canvas_id: &CanvasId, current: &Vec<u8>, width: u32, height: u32) -> (update: Option<
        DirtyRegionData,
    >)
        requires
            current@.len() == width * height * 4,
        ensures
            is_update(update, self.cached(*canvas_id), current@, width, height),
    {
        broadcast use vstd::std_specs::hash::group_hash_axioms;

        match self.cache.get(&canvas_id.0) {
            Some(previous) => {
                if previous.len() == current.len() {
                    match BufferManager::calculate_dirty_region(
                        previous.as_slice(),
                        current.as_slice(),
                        width,
                        height,
                    ) {
                        Some(region) => {
                            let transfer = BinaryTransfer::new(
                                region.data,
                                region.width,
                                region.height,
                                ImageFormat::Rgba8,
                            );
                            Some(
                                DirtyRegionData {
                                    x: region.x,
                                    y: region.y,
                                    width: region.width,
                                    height: region.height,
                                    image_data: transfer,
                                },
                            )
                        },
                        None => None,
                    }
                } else {
                    Some(whole_frame(current, width, height))
                }
            },
            None => Some(whole_frame(current, width, height)),
        }
    }
}

/// The whole frame as one dirty region.
pub fn whole_frame(current: &Vec<u8>, width: u32, height: u32) -> (region: DirtyRegionData)
    ensures
        region.x == 0,
        region.y == 0,
        region.width == width,
        region.height == height,
        region.image_data.format == ImageFormat::Rgba8,
        !region.image_data.compressed,
        region.image_data.width == width,
        region.image_data.height == height,
        region.image_data.data@ == current@,
{
    let transfer = BinaryTransfer::new(crate::binary::copy_bytes(current), width, height, ImageFormat::Rgba8);
    DirtyRegionData { x: 0, y: 0, width, height, image_data: transfer }
}

/// Answers a request for an update of a canvas whose frame is now
/// `current_data`: the answer holds what changed since the frame that was
/// sent last, and `current_data` becomes the frame that was sent last,
/// whether anything changed or not.
pub fn get_diff_render_result(
    cache: &mut RenderCache,
    canvas_id: CanvasId,
    current_data: Vec<u8>,
    width: u32,
    height: u32,
    timestamp: u64,
) -> (result: DiffRenderResult)
    requires
        current_data@.len() == width * height * 4,
    ensures
        result.canvas_id == canvas_id,
        result.timestamp == timestamp,
        is_update(result.dirty_region, old(cache).cached(canvas_id), current_data@, width, height),
        final(cache).cached(canvas_id) == Some(current_data@),
        forall|other: CanvasId| other != canvas_id ==> final(cache).cached(other) == old(cache).cached(other),
{
    let dirty_region = cache.update_for(&canvas_id, &current_data, width, height);
    cache.set(canvas_id, current_data);
    DiffRenderResult { canvas_id, dirty_region, timestamp }
}

/// Forgets the frame of a canvas, so that the next update sends the whole
/// frame.
pub fn clear_render_cache(cache: &mut RenderCache, canvas_id: CanvasId)
    ensures
        final(cache).cached(canvas_id) is None,
        forall|other: CanvasId| other != canvas_id ==> final(cache).cached(other) == old(cache).cached(other),
{
    cache.remove(&canvas_id);
}

} // verus!
