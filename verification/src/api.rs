//! The values that the canvas core reports to the application around it.

use vstd::prelude::*;
use crate::error::CanvasError;

verus! {

/// A rectangle of pixels.
#[derive(Debug, Clone, Copy, PartialEq, Eq, Structural)]
pub struct Rect {
    pub x: u32,
    pub y: u32,
    pub width: u32,
    pub height: u32,
}

/// The shape of a selection.
#[derive(Debug, Clone, Copy, PartialEq, Eq, Structural)]
pub enum SelectionType {
    Rectangle,
    Lasso,
    Magic,
}

/// The kind of a vector shape.
#[derive(Debug, Clone, Copy, PartialEq, Eq, Structural)]
pub enum ShapeType {
    Rectangle,
    Ellipse,
    Line,
}

/// What an update of a layer reports.
#[derive(Debug, Clone, Copy, PartialEq, Eq, Structural)]
pub enum UpdateType {
    /// A stroke is under way.
    StrokeProgress,
    /// A stroke has ended.
    StrokeComplete,
    /// A part of the layer has changed.
    PartialUpdate,
}

/// The rectangle that an update covers.
#[derive(Debug, Clone, Copy, PartialEq, Eq, Structural)]
pub struct UpdateRect {
    pub x: u32,
    pub y: u32,
    pub width: u32,
    pub height: u32,
}

/// New pixels of a layer.
#[derive(Debug)]
pub struct DrawingUpdate {
    pub layer_id: String,
    pub update_type: UpdateType,
    pub data: Vec<u8>,
    pub rect: UpdateRect,
}

/// Numbers about the layers and the texture pool.
#[derive(Debug, Clone, Copy, PartialEq, Eq, Structural)]
pub struct DrawingStats {
    pub layers_count: usize,
    pub memory_used: u64,
    pub memory_limit: u64,
    pub active_textures: usize,
    pub total_textures: usize,
}

impl DrawingStats {
    /// The statistics for a number of layers and the figures of the pool
    /// (usage, budget, textures in use, textures in all).
    pub fn from_pool(layers_count: usize, pool: (u64, u64, usize, usize)) -> (stats: DrawingStats)
        ensures
            stats == (DrawingStats {
                layers_count,
                memory_used: pool.0,
                memory_limit: pool.1,
                active_textures: pool.2,
                total_textures: pool.3,
            }),
    {
        DrawingStats {
            layers_count,
            memory_used: pool.0,
            memory_limit: pool.1,
            active_textures: pool.2,
            total_textures: pool.3,
        }
    }
}

/// The state of the engine in detail.
#[derive(Debug)]
pub struct DetailedEngineState {
    pub engine_initialized: bool,
    /// Identifier, width and height of each layer.
    pub layers: Vec<(String, u32, u32)>,
    pub memory_used: u64,
    pub memory_limit: u64,
    pub active_textures: usize,
    pub total_textures: usize,
}

impl DetailedEngineState {
    /// The detailed state for the given layers and the figures of the pool,
    /// if there is an engine; without one, all figures are zero.
    pub fn from_pool(layers: Vec<(String, u32, u32)>, pool: Option<(u64, u64, usize, usize)>) -> (state:
        DetailedEngineState)
        ensures
            state.layers == layers,
            state.engine_initialized == pool is Some,
            pool matches Some(p) ==> state.memory_used == p.0 && state.memory_limit == p.1 && state.active_textures
                == p.2 && state.total_textures == p.3,
            pool is None ==> state.memory_used == 0 && state.memory_limit == 0 && state.active_textures == 0
                && state.total_textures == 0,
    {
        match pool {
            Some(p) => DetailedEngineState {
                engine_initialized: true,
                layers,
                memory_used: p.0,
                memory_limit: p.1,
                active_textures: p.2,
                total_textures: p.3,
            },
            None => DetailedEngineState {
                engine_initialized: false,
                layers,
                memory_used: 0,
                memory_limit: 0,
                active_textures: 0,
                total_textures: 0,
            },
        }
    }
}

/// One layer as the engine knows it.
#[derive(Debug)]
pub struct LayerInfo {
    pub layer_id: String,
    pub width: u32,
    pub height: u32,
    pub exists_in_engine: bool,
}

/// Memory figures in mebibytes.
#[derive(Debug, Clone, Copy, PartialEq, Eq, Structural)]
pub struct SystemMemoryInfo {
    pub process_memory_mb: u64,
    pub available_memory_mb: u64,
    pub texture_memory_mb: u64,
}

impl SystemMemoryInfo {
    /// The memory figures for a texture usage in bytes; the figures of the
    /// process are not measured and stay zero.
    pub fn from_texture_usage(used_bytes: u64) -> (info: SystemMemoryInfo)
        ensures
            info == (SystemMemoryInfo {
                process_memory_mb: 0,
                available_memory_mb: 0,
                texture_memory_mb: (used_bytes / 1048576) as u64,
            }),
    {
        SystemMemoryInfo { process_memory_mb: 0, available_memory_mb: 0, texture_memory_mb: used_bytes / 1048576 }
    }
}

/// Whether `index` is where `id` stands first in the list, or the length of
/// the list if it stands nowhere.
pub open spec fn is_first_position(ids: Seq<String>, id: String, index: int) -> bool {
    &&& 0 <= index <= ids.len()
    &&& forall|j: int| 0 <= j < index ==> (#[trigger] ids[j])@ != id@
    &&& index < ids.len() ==> ids[index]@ == id@
}

/// Where a layer id stands first in a list of layer ids; the length of the
/// list if it stands nowhere.
pub fn find_layer_id(ids: &Vec<String>, layer_id: &String) -> (index: usize)
    ensures
        is_first_position(ids@, *layer_id, index as int),
{
    let mut i: usize = 0;
    while i < ids.len() && ids[i] != *layer_id
        invariant
            i <= ids@.len(),
            forall|j: int| 0 <= j < i ==> (#[trigger] ids@[j])@ != layer_id@,
        decreases ids@.len() - i,
    {
        i = i + 1;
    }
    i
}

/// Moves the item at index `from` of a stack to index `to`, keeping the
/// order of the others. An index that names no item is refused, and the
/// stack stays as it is.
pub fn move_item<T>(items: &mut Vec<T>, from: usize, to: usize) -> (result: Result<(), CanvasError>)
    ensures
        from < old(items)@.len() && to < old(items)@.len() ==> result == Ok::<(), CanvasError>(()) && final(items)@
            == old(items)@.remove(from as int).insert(to as int, old(items)@[from as int]),
        !(from < old(items)@.len() && to < old(items)@.len()) ==> result == Err::<(), CanvasError>(
            CanvasError::NotFound,
        ) && final(items)@ == old(items)@,
        final(items)@.len() == old(items)@.len(),
{
    if from >= items.len() || to >= items.len() {
        return Err(CanvasError::NotFound);
    }
    proof {
        items@.remove_ensures(from as int);
    }
    let item = items.remove(from);
    items.insert(to, item);
    Ok(())
}

/// Moves the layer with the given id to index `new_index` of a list of layer
/// ids and returns the index it had. An id that is not in the list and an
/// index past the list are refused, and the list stays as it is.
pub fn reorder_layer_ids(ids: &mut Vec<String>, layer_id: &String, new_index: usize) -> (result: Result<
    usize,
    CanvasError,
>)
    ensures
        final(ids)@.len() == old(ids)@.len(),
        result matches Ok(from) ==> is_first_position(old(ids)@, *layer_id, from as int) && from < old(ids)@.len()
            && new_index < old(ids)@.len() && final(ids)@ == old(ids)@.remove(from as int).insert(
            new_index as int,
            old(ids)@[from as int],
        ),
        result is Err ==> result == Err::<usize, CanvasError>(CanvasError::NotFound) && final(ids)@ == old(ids)@,
        result is Err <==> new_index >= old(ids)@.len() || forall|j: int|
            0 <= j < old(ids)@.len() ==> (#[trigger] old(ids)@[j])@ != layer_id@,
{
    let from = find_layer_id(ids, layer_id);
    match move_item(ids, from, new_index) {
        Ok(()) => Ok(from),
        Err(e) => Err(e),
    }
}

/// Whether a stroke that has `points` samples, of which `last_update_index`
/// have been shown, has gathered enough new samples to be shown again.
pub fn should_update(points: usize, last_update_index: usize) -> (due: bool)
    requires
        last_update_index <= points,
    ensures
        due == (points - last_update_index >= 5),
{
    points - last_update_index >= 5
}

} // verus!
