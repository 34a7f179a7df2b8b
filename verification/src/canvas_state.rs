//! A canvas: an ordered stack of layers of one size, with one of them active.

use vstd::prelude::*;
use crate::error::CanvasError;
use crate::ids::{fresh_id, is_random_id};
use crate::layer::{is_valid_size, resized, valid_size, Layer};

verus! {

/// The identifier of a canvas.
#[derive(Debug, Clone, Copy, PartialEq, Eq, Structural)]
pub struct CanvasId(pub u128);

impl CanvasId {
    /// A fresh random identifier.
    pub fn new() -> (id: CanvasId)
        ensures
            is_random_id(id.0),
    {
        CanvasId(fresh_id())
    }
}

/// A stack of layers, bottom first, and the index of the layer that
/// receives strokes.
#[derive(Debug)]
pub struct CanvasState {
    pub id: CanvasId,
    pub width: u32,
    pub height: u32,
    pub layers: Vec<Layer>,
    pub active_layer: usize,
    /// The texture that shows the composite, if one has been made.
    pub texture_id: Option<u64>,
    /// Whether the composite is out of date.
    pub dirty: bool,
}

impl CanvasState {
    /// The size is an accepted one, there is at least one layer, the active
    /// index names one, and every layer has the size of the canvas.
    pub open spec fn wf(&self) -> bool {
        &&& valid_size(self.width, self.height)
        &&& self.layers@.len() >= 1
        &&& self.active_layer < self.layers@.len()
        &&& forall|i: int|
            0 <= i < self.layers@.len() ==> {
                let l = #[trigger] self.layers@[i];
                l.wf() && l.width == self.width && l.height == self.height
            }
    }

    /// A canvas with one transparent layer, which is active.
    pub fn new(id: CanvasId, width: u32, height: u32) -> (canvas: CanvasState)
        requires
            valid_size(width, height),
        ensures
            canvas.wf(),
            canvas.id == id,
            canvas.width == width,
            canvas.height == height,
            canvas.layers@.len() == 1,
            forall|k: int| 0 <= k < canvas.layers@[0].data@.len() ==> canvas.layers@[0].data@[k] == 0,
            canvas.active_layer == 0,
            canvas.texture_id is None,
            canvas.dirty,
    {
        let mut layers: Vec<Layer> = Vec::new();
        layers.push(Layer::new(width, height));
        CanvasState { id, width, height, layers, active_layer: 0, texture_id: None, dirty: true }
    }

    /// The layer that receives strokes.
    pub fn get_active_layer(&self) -> (layer: Option<&Layer>)
        ensures
            layer is Some <==> self.active_layer < self.layers@.len(),
            layer matches Some(l) ==> *l == self.layers@[self.active_layer as int],
    {
        if self.active_layer < self.layers.len() {
            Some(&self.layers[self.active_layer])
        } else {
            None
        }
    }

    /// Makes the layer at `index` the active one.
    pub fn set_active_layer(&mut self, index: usize) -> (result: Result<(), CanvasError>)
        ensures
            index < old(self).layers@.len() ==> result == Ok::<(), CanvasError>(()) && *final(self) == (CanvasState {
                active_layer: index,
                ..*old(self)
            }),
            index >= old(self).layers@.len() ==> result == Err::<(), CanvasError>(CanvasError::NotFound),
            index >= old(self).layers@.len() ==> *final(self) == *old(self),
    {
        if index < self.layers.len() {
            self.active_layer = index;
            Ok(())
        } else {
            Err(CanvasError::NotFound)
        }
    }

    /// Puts a new transparent layer on top of the stack and returns its index.
    pub fn add_layer(&mut self) -> (index: usize)
        requires
            old(self).wf(),
        ensures
            final(self).wf(),
            index == old(self).layers@.len(),
            final(self).layers@.len() == old(self).layers@.len() + 1,
            forall|i: int| 0 <= i < old(self).layers@.len() ==> final(self).layers@[i] == old(self).layers@[i],
            forall|k: int|
                0 <= k < final(self).layers@[index as int].data@.len() ==> final(self).layers@[index as int].data@[k]
                    == 0,
            final(self).active_layer == old(self).active_layer,
            final(self).width == old(self).width,
            final(self).height == old(self).height,
            final(self).id == old(self).id,
            final(self).texture_id == old(self).texture_id,
            final(self).dirty,
    {
        let layer = Layer::new(self.width, self.height);
        self.layers.push(layer);
        self.dirty = true;
        self.layers.len() - 1
    }

    /// Deletes the layer at `index`.
    ///
    /// The only remaining layer is protected; an index past the stack names
    /// no layer. In both cases nothing changes. Otherwise the layer leaves
    /// the stack, and an active index past the new top moves to the top.
    pub fn delete_layer(&mut self, index: usize) -> (result: Result<(), CanvasError>)
        requires
            old(self).wf(),
        ensures
            final(self).wf(),
            old(self).layers@.len() <= 1 ==> result == Err::<(), CanvasError>(CanvasError::LastLayerProtected)
                && *final(self) == *old(self),
            old(self).layers@.len() > 1 && index >= old(self).layers@.len() ==> result == Err::<(), CanvasError>(
                CanvasError::NotFound,
            ) && *final(self) == *old(self),
            old(self).layers@.len() > 1 && index < old(self).layers@.len() ==> {
                &&& result == Ok::<(), CanvasError>(())
                &&& final(self).layers@ == old(self).layers@.remove(index as int)
                &&& final(self).active_layer == if old(self).active_layer >= old(self).layers@.len() - 1 {
                    (old(self).layers@.len() - 2) as usize
                } else {
                    old(self).active_layer
                }
                &&& final(self).dirty
                &&& final(self).width == old(self).width
                &&& final(self).height == old(self).height
                &&& final(self).id == old(self).id
                &&& final(self).texture_id == old(self).texture_id
            },
    {
        if self.layers.len() <= 1 {
            return Err(CanvasError::LastLayerProtected);
        }
        if index >= self.layers.len() {
            return Err(CanvasError::NotFound);
        }
        proof {
            self.layers@.remove_ensures(index as int);
        }
        self.layers.remove(index);
        if self.active_layer >= self.layers.len() {
            self.active_layer = self.layers.len() - 1;
        }
        self.dirty = true;
        Ok(())
    }

    /// Changes the size of the canvas and of every layer to another accepted
    /// size. The texture of the composite no longer fits and is dropped.
    pub fn resize(&mut self, width: u32, height: u32)
        requires
            old(self).wf(),
            valid_size(width, height),
        ensures
            final(self).wf(),
            final(self).width == width,
            final(self).height == height,
            final(self).layers@.len() == old(self).layers@.len(),
            forall|i: int|
                0 <= i < final(self).layers@.len() ==> (#[trigger] final(self).layers@[i]).data@ == resized(
                    old(self).layers@[i].data@,
                    old(self).width as int,
                    old(self).height as int,
                    width as int,
                    height as int,
                ),
            final(self).active_layer == old(self).active_layer,
            final(self).id == old(self).id,
            final(self).texture_id is None,
            final(self).dirty,
    {
        let ghost before = self.layers@;
        let old_width = self.width;
        let old_height = self.height;
        let mut i: usize = 0;
        while i < self.layers.len()
            invariant
                i <= self.layers@.len(),
                self.layers@.len() == before.len(),
                self.active_layer == old(self).active_layer,
                self.id == old(self).id,
                valid_size(width, height),
                forall|j: int|
                    0 <= j < i ==> {
                        let l = #[trigger] self.layers@[j];
                        l.wf() && l.width == width && l.height == height && l.data@ == resized(
                            before[j].data@,
                            old_width as int,
                            old_height as int,
                            width as int,
                            height as int,
                        )
                    },
                forall|j: int|
                    i <= j < self.layers@.len() ==> {
                        let l = #[trigger] self.layers@[j];
                        l == before[j] && l.wf() && l.width == old_width && l.height == old_height
                    },
            decreases self.layers@.len() - i,
        {
            self.layers[i].resize(width, height);
            i = i + 1;
        }
        self.width = width;
        self.height = height;
        self.texture_id = None;
        self.dirty = true;
    }
}

/// Creates a canvas of `width` x `height` pixels with a fresh identifier and
/// one transparent layer. A side that is zero or above the supported maximum
/// is refused.
pub fn create_canvas(width: u32, height: u32) -> (result: Result<CanvasState, CanvasError>)
    ensures
        !valid_size(width, height) ==> result == Err::<CanvasState, CanvasError>(CanvasError::InvalidDimensions),
        valid_size(width, height) ==> result is Ok,
        result matches Ok(canvas) ==> {
            &&& canvas.wf()
            &&& is_random_id(canvas.id.0)
            &&& canvas.width == width
            &&& canvas.height == height
            &&& canvas.layers@.len() == 1
            &&& canvas.layers@[0].data@.len() == width * height * 4
            &&& forall|k: int| 0 <= k < canvas.layers@[0].data@.len() ==> canvas.layers@[0].data@[k] == 0
            &&& canvas.active_layer == 0
            &&& canvas.texture_id is None
            &&& canvas.dirty
        },
{
    if !is_valid_size(width, height) {
        return Err(CanvasError::InvalidDimensions);
    }
    Ok(CanvasState::new(CanvasId::new(), width, height))
}

} // verus!
