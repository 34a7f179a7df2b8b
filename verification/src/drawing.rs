//! The drawing state of an application: which layers have textures, which
//! strokes are under way, and what has to be shown while they grow.

use std::collections::HashMap;
use vstd::prelude::*;
use crate::api::{DrawingStats, SystemMemoryInfo, UpdateRect};
use crate::commands::BrushColor;
use crate::ids::{fresh_id, is_random_id};
use crate::pool::{layer_texture_created, Acquired, PoolModel, ReadbackLayout, TextureManager};
use crate::renderer::padded_row_bytes;
use crate::texture::{TextureError, TextureFormat, TextureSpec, USAGE_LAYER};

verus! {

/// The longest side of a layer that the drawing state accepts.
pub const MAX_LAYER_SIDE: u32 = 4096;

/// The number of new samples after which a growing stroke is shown again.
pub const UPDATE_INTERVAL: usize = 5;

/// One sample of a stroke: a pixel and a fixed-point pressure.
#[derive(Debug, Clone, Copy, PartialEq, Eq, Structural)]
pub struct StrokePoint {
    pub x: i32,
    pub y: i32,
    pub pressure: u32,
}

/// A stroke that is under way.
#[derive(Debug)]
pub struct ActiveStroke {
    pub id: u128,
    pub layer_id: u64,
    pub color: BrushColor,
    pub points: Vec<StrokePoint>,
    /// The number of samples that had arrived when the stroke was shown last.
    pub last_update_index: usize,
}

/// Why a request to the drawing state was refused.
#[derive(Debug, Clone, PartialEq, Eq)]
pub enum DrawingError {
    /// There is no texture pool yet.
    EngineNotInitialized,
    /// A side is zero or longer than `MAX_LAYER_SIDE`.
    InvalidResolution(u32, u32),
    /// No layer has this id.
    LayerNotFound(u64),
    /// No stroke under way has this id.
    StrokeNotFound(u128),
    /// The texture pool refused.
    Texture(TextureError),
}

/// The answer of the pool as an answer of the drawing state.
pub open spec fn texture_answer(answer: Result<Acquired, TextureError>) -> Result<Acquired, DrawingError> {
    match answer {
        Ok(acquired) => Ok(acquired),
        Err(e) => Err(DrawingError::Texture(e)),
    }
}

/// The rectangle around a sample that is shown again when the stroke has
/// grown: the sample with a margin of twenty pixels times the pressure,
/// rounded up, cut off at the left and the top edge.
pub open spec fn update_rect_of(point: StrokePoint) -> UpdateRect {
    let radius = (point.pressure * 20 + 65535) / 65536;
    UpdateRect {
        x: (if point.x - radius > 0 { point.x - radius } else { 0 }) as u32,
        y: (if point.y - radius > 0 { point.y - radius } else { 0 }) as u32,
        width: (radius * 2 + 1) as u32,
        height: (radius * 2 + 1) as u32,
    }
}

/// The rectangle around a sample that is shown again when the stroke has
/// grown.
pub fn calculate_update_rect(point: &StrokePoint) -> (rect: UpdateRect)
    ensures
        rect == update_rect_of(*point),
{
    let radius: i64 = ((point.pressure as u64 * 20 + 65535) / 65536) as i64;
    let left: i64 = point.x as i64 - radius;
    let top: i64 = point.y as i64 - radius;
    UpdateRect {
        x: if left > 0 { left as u32 } else { 0 },
        y: if top > 0 { top as u32 } else { 0 },
        width: (radius * 2 + 1) as u32,
        height: (radius * 2 + 1) as u32,
    }
}

/// The layers, the strokes under way and the texture pool of an application.
pub struct DrawingState {
    engine: Option<TextureManager>,
    layers: HashMap<u64, (u32, u32)>,
    active_strokes: HashMap<u128, ActiveStroke>,
}

impl DrawingState {
    /// The texture pool, if there is one.
    pub closed spec fn pool(&self) -> Option<PoolModel> {
        match self.engine {
            Some(manager) => Some(manager@),
            None => None,
        }
    }

    /// The size of a layer, if the layer is known.
    pub closed spec fn layer_size(&self, layer_id: u64) -> Option<(u32, u32)> {
        if self.layers@.contains_key(layer_id) {
            Some(self.layers@[layer_id])
        } else {
            None
        }
    }

    /// The number of layers that are known.
    pub closed spec fn layer_count(&self) -> nat {
        self.layers@.len()
    }

    /// The stroke under way with the given id, if there is one.
    pub closed spec fn stroke(&self, stroke_id: u128) -> Option<ActiveStroke> {
        if self.active_strokes@.contains_key(stroke_id) {
            Some(self.active_strokes@[stroke_id])
        } else {
            None
        }
    }

    /// The texture pool, if there is one, is well formed.
    pub closed spec fn wf(&self) -> bool {
        self.engine matches Some(manager) ==> manager@.wf()
    }

    /// A state without pool, layers or strokes.
    pub fn new() -> (state: DrawingState)
        ensures
            state.wf(),
            state.pool() is None,
            state.layer_count() == 0,
            forall|id: u64| state.layer_size(id) is None,
            forall|id: u128| state.stroke(id) is None,
    {
        DrawingState { engine: None, layers: HashMap::new(), active_strokes: HashMap::new() }
    }

    /// Gives the state an empty texture pool unless it has one. Returns
    /// whether it had none.
    pub fn initialize_drawing_engine(&mut self) -> (fresh: bool)
        requires
            old(self).wf(),
        ensures
            final(self).wf(),
            fresh == old(self).pool() is None,
            final(self).pool() is Some,
            !fresh ==> final(self).pool() == old(self).pool(),
            fresh ==> final(self).pool()->0.active.len() == 0 && final(self).pool()->0.idle.len() == 0 && final(self).pool()->0.usage == 0,
            forall|id: u64| final(self).layer_size(id) == old(self).layer_size(id),
            forall|id: u128| final(self).stroke(id) == old(self).stroke(id),
            final(self).layer_count() == old(self).layer_count(),
    {
        if self.engine.is_some() {
            false
        } else {
            self.engine = Some(TextureManager::new());
            true
        }
    }

    /// Creates a layer of the given size with a texture of its own, or gives
    /// a known layer a texture of a new size.
    ///
    /// A side that is zero or longer than `MAX_LAYER_SIDE` is refused, then
    /// a state without pool, then whatever the pool refuses. Whenever the
    /// request is refused nothing changes: a known layer keeps its texture.
    pub fn create_drawing_layer(&mut self, layer_id: u64, width: u32, height: u32, now: u64) -> (result: Result<
        Acquired,
        DrawingError,
    >)
        requires
            old(self).wf(),
        ensures
            final(self).wf(),
            forall|id: u128| final(self).stroke(id) == old(self).stroke(id),
            forall|id: u64| id != layer_id ==> final(self).layer_size(id) == old(self).layer_size(id),
            (width == 0 || height == 0 || width > MAX_LAYER_SIDE || height > MAX_LAYER_SIDE) ==> result == Err::<
                Acquired,
                DrawingError,
            >(DrawingError::InvalidResolution(width, height)) && final(self).pool() == old(self).pool() && final(self).layer_size(layer_id) == old(self).layer_size(layer_id),
            !(width == 0 || height == 0 || width > MAX_LAYER_SIDE || height > MAX_LAYER_SIDE) && old(self).pool()
                is None ==> result == Err::<Acquired, DrawingError>(DrawingError::EngineNotInitialized) && final(self).pool() is None && final(self).layer_size(layer_id) == old(self).layer_size(layer_id),
            !(width == 0 || height == 0 || width > MAX_LAYER_SIDE || height > MAX_LAYER_SIDE) && old(self).pool()
                is Some ==> {
                let spec = TextureSpec { width, height, format: TextureFormat::Rgba8UnormSrgb, usage: USAGE_LAYER };
                &&& final(self).pool() is Some
                &&& exists|answer: Result<Acquired, TextureError>| #[trigger]
                    layer_texture_created(
                        old(self).pool()->0,
                        final(self).pool()->0,
                        layer_id,
                        width,
                        height,
                        now,
                        answer,
                    ) && result == texture_answer(answer)
                &&& result is Ok <==> old(self).pool()->0.acquires(spec)
                &&& result is Ok ==> final(self).layer_size(layer_id) == Some((width, height))
                &&& result is Err ==> final(self).pool() == old(self).pool() && final(self).layer_size(layer_id)
                    == old(self).layer_size(layer_id)
            },
    {
        broadcast use vstd::std_specs::hash::group_hash_axioms;

        if width == 0 || height == 0 || width > MAX_LAYER_SIDE || height > MAX_LAYER_SIDE {
            return Err(DrawingError::InvalidResolution(width, height));
        }
        let mut manager = match self.engine.take() {
            Some(manager) => manager,
            None => {
                return Err(DrawingError::EngineNotInitialized);
            },
        };
        let ghost before = manager@;
        let created = manager.create_layer_texture(layer_id, width, height, now);
        let ghost answer = created;
        let ghost after = manager@;
        self.engine = Some(manager);
        let result = match created {
            Ok(acquired) => {
                self.layers.insert(layer_id, (width, height));
                Ok(acquired)
            },
            Err(e) => Err(DrawingError::Texture(e)),
        };
        proof {
            assert(old(self).pool()->0 == before && self.pool()->0 == after);
            assert(layer_texture_created(
                old(self).pool()->0,
                self.pool()->0,
                layer_id,
                width,
                height,
                now,
                answer,
            ));
            assert(result == texture_answer(answer));
        }
        result
    }

    /// Removes a layer: its texture goes back to the pool, and the layer is
    /// forgotten. A layer without a texture is reported as not found.
    pub fn remove_layer(&mut self, layer_id: u64, now: u64) -> (result: Result<(), DrawingError>)
        requires
            old(self).wf(),
        ensures
            final(self).wf(),
            forall|id: u128| final(self).stroke(id) == old(self).stroke(id),
            forall|id: u64| id != layer_id ==> final(self).layer_size(id) == old(self).layer_size(id),
            old(self).pool() is None ==> result == Err::<(), DrawingError>(DrawingError::EngineNotInitialized)
                && final(self).pool() is None && final(self).layer_size(layer_id) == old(self).layer_size(layer_id),
            old(self).pool() is Some ==> {
                let bound = crate::texture::index_of_layer(old(self).pool()->0.active, layer_id) < old(self).pool()->0.active.len();
                &&& final(self).pool() == Some(old(self).pool()->0.unbind(layer_id, now))
                &&& bound ==> result == Ok::<(), DrawingError>(()) && final(self).layer_size(layer_id) is None
                &&& !bound ==> result == Err::<(), DrawingError>(DrawingError::LayerNotFound(layer_id)) && final(self).layer_size(layer_id) == old(self).layer_size(layer_id)
            },
    {
        broadcast use vstd::std_specs::hash::group_hash_axioms;

        let mut manager = match self.engine.take() {
            Some(manager) => manager,
            None => {
                return Err(DrawingError::EngineNotInitialized);
            },
        };
        let removed = manager.remove_layer_texture(layer_id, now);
        self.engine = Some(manager);
        if removed {
            self.layers.remove(&layer_id);
            Ok(())
        } else {
            Err(DrawingError::LayerNotFound(layer_id))
        }
    }

    /// Where the pixels of a known layer land when its texture is read back.
    /// An unknown layer is refused first, then a state without pool, then a
    /// layer without a texture.
    pub fn get_layer_image_layout(&self, layer_id: u64) -> (result: Result<ReadbackLayout, DrawingError>)
        requires
            self.wf(),
        ensures
            self.layer_size(layer_id) is None ==> result == Err::<ReadbackLayout, DrawingError>(
                DrawingError::LayerNotFound(layer_id),
            ),
            self.layer_size(layer_id) is Some && self.pool() is None ==> result == Err::<
                ReadbackLayout,
                DrawingError,
            >(DrawingError::EngineNotInitialized),
            self.layer_size(layer_id) is Some && self.pool() is Some ==> {
                let pool = self.pool()->0;
                let i = crate::texture::index_of_layer(pool.active, layer_id);
                &&& i >= pool.active.len() ==> result is Err && result->Err_0 is Texture
                &&& i < pool.active.len() ==> result == Ok::<ReadbackLayout, DrawingError>(
                    ReadbackLayout {
                        texture_id: pool.active[i].id,
                        width: pool.active[i].spec.width,
                        height: pool.active[i].spec.height,
                        padded_bytes_per_row: padded_row_bytes(pool.active[i].spec.width as int) as u32,
                        buffer_size: (padded_row_bytes(pool.active[i].spec.width as int)
                            * pool.active[i].spec.height) as u64,
                    },
                )
            },
    {
        broadcast use vstd::std_specs::hash::group_hash_axioms;

        if !self.layers.contains_key(&layer_id) {
            return Err(DrawingError::LayerNotFound(layer_id));
        }
        match &self.engine {
            Some(manager) => match manager.readback_layout(layer_id) {
                Ok(layout) => Ok(layout),
                Err(e) => Err(DrawingError::Texture(e)),
            },
            None => Err(DrawingError::EngineNotInitialized),
        }
    }

    /// Records at time `now` that a known layer is being cleared and returns
    /// the id of its texture. An unknown layer is refused first, then a state
    /// without pool, then a layer without a texture; then nothing changes.
    pub fn clear_layer(&mut self, layer_id: u64, now: u64) -> (result: Result<u64, DrawingError>)
        requires
            old(self).wf(),
        ensures
            final(self).wf(),
            forall|id: u64| final(self).layer_size(id) == old(self).layer_size(id),
            forall|id: u128| final(self).stroke(id) == old(self).stroke(id),
            old(self).layer_size(layer_id) is None ==> result == Err::<u64, DrawingError>(
                DrawingError::LayerNotFound(layer_id),
            ) && final(self).pool() == old(self).pool(),
            old(self).layer_size(layer_id) is Some && old(self).pool() is None ==> result == Err::<
                u64,
                DrawingError,
            >(DrawingError::EngineNotInitialized) && final(self).pool() is None,
            old(self).layer_size(layer_id) is Some && old(self).pool() is Some ==> {
                let pool = old(self).pool()->0;
                let i = crate::texture::index_of_layer(pool.active, layer_id);
                &&& final(self).pool() == Some(pool.touch(layer_id, now))
                &&& i >= pool.active.len() ==> result is Err && result->Err_0 is Texture
                &&& i < pool.active.len() ==> result == Ok::<u64, DrawingError>(pool.active[i].id)
            },
    {
        broadcast use vstd::std_specs::hash::group_hash_axioms;

        if !self.layers.contains_key(&layer_id) {
            return Err(DrawingError::LayerNotFound(layer_id));
        }
        let mut manager = match self.engine.take() {
            Some(manager) => manager,
            None => {
                return Err(DrawingError::EngineNotInitialized);
            },
        };
        let cleared = manager.clear_texture(layer_id, now);
        self.engine = Some(manager);
        match cleared {
            Ok(texture_id) => Ok(texture_id),
            Err(e) => Err(DrawingError::Texture(e)),
        }
    }

    /// Starts a stroke on a known layer and returns its fresh id.
    pub fn begin_realtime_stroke(&mut self, layer_id: u64, color: BrushColor) -> (result: Result<u128, DrawingError>)
        requires
            old(self).wf(),
        ensures
            final(self).wf(),
            final(self).pool() == old(self).pool(),
            forall|id: u64| final(self).layer_size(id) == old(self).layer_size(id),
            old(self).layer_size(layer_id) is None ==> result == Err::<u128, DrawingError>(
                DrawingError::LayerNotFound(layer_id),
            ) && forall|id: u128| final(self).stroke(id) == old(self).stroke(id),
            old(self).layer_size(layer_id) is Some ==> result is Ok,
            result matches Ok(stroke_id) ==> {
                &&& is_random_id(stroke_id)
                &&& final(self).stroke(stroke_id) is Some
                &&& final(self).stroke(stroke_id)->0.id == stroke_id
                &&& final(self).stroke(stroke_id)->0.layer_id == layer_id
                &&& final(self).stroke(stroke_id)->0.color == color
                &&& final(self).stroke(stroke_id)->0.points@.len() == 0
                &&& final(self).stroke(stroke_id)->0.last_update_index == 0
                &&& forall|id: u128| id != stroke_id ==> final(self).stroke(id) == old(self).stroke(id)
            },
    {
        broadcast use vstd::std_specs::hash::group_hash_axioms;

        if !self.layers.contains_key(&layer_id) {
            return Err(DrawingError::LayerNotFound(layer_id));
        }
        let stroke_id = fresh_id();
        let stroke = ActiveStroke { id: stroke_id, layer_id, color, points: Vec::new(), last_update_index: 0 };
        self.active_strokes.insert(stroke_id, stroke);
        Ok(stroke_id)
    }

    /// Adds a sample to a stroke under way.
    ///
    /// The stroke is shown again once five samples have arrived since it was
    /// shown last: then the result holds the layer of the stroke and the
    /// rectangle around the new sample, and the count starts afresh.
    pub fn add_realtime_stroke_point(&mut self, stroke_id: u128, point: StrokePoint) -> (result: Result<
        Option<(u64, UpdateRect)>,
        DrawingError,
    >)
        requires
            old(self).wf(),
        ensures
            final(self).wf(),
            final(self).pool() == old(self).pool(),
            forall|id: u64| final(self).layer_size(id) == old(self).layer_size(id),
            forall|id: u128| id != stroke_id ==> final(self).stroke(id) == old(self).stroke(id),
            old(self).stroke(stroke_id) is None ==> result == Err::<Option<(u64, UpdateRect)>, DrawingError>(
                DrawingError::StrokeNotFound(stroke_id),
            ) && final(self).stroke(stroke_id) is None,
            old(self).stroke(stroke_id) matches Some(before) ==> {
                let due = before.points@.len() + 1 - before.last_update_index >= UPDATE_INTERVAL;
                &&& final(self).stroke(stroke_id) is Some
                &&& final(self).stroke(stroke_id)->0.points@ == before.points@.push(point)
                &&& final(self).stroke(stroke_id)->0.id == before.id
                &&& final(self).stroke(stroke_id)->0.layer_id == before.layer_id
                &&& final(self).stroke(stroke_id)->0.color == before.color
                &&& final(self).stroke(stroke_id)->0.last_update_index == (if due {
                    (before.points@.len() + 1) as usize
                } else {
                    before.last_update_index
                })
                &&& result == Ok::<Option<(u64, UpdateRect)>, DrawingError>(
                    if due {
                        Some((before.layer_id, update_rect_of(point)))
                    } else {
                        None
                    },
                )
            },
    {
        broadcast use vstd::std_specs::hash::group_hash_axioms;

        let mut stroke = match self.active_strokes.remove(&stroke_id) {
            Some(stroke) => stroke,
            None => {
                return Err(DrawingError::StrokeNotFound(stroke_id));
            },
        };
        stroke.points.push(point);
        let layer_id = stroke.layer_id;
        let shown: usize = if stroke.last_update_index <= stroke.points.len() {
            stroke.last_update_index
        } else {
            stroke.points.len()
        };
        let due = stroke.points.len() - shown >= UPDATE_INTERVAL;
        if due {
            stroke.last_update_index = stroke.points.len();
        }
        self.active_strokes.insert(stroke_id, stroke);
        if due {
            Ok(Some((layer_id, calculate_update_rect(&point))))
        } else {
            Ok(None)
        }
    }

    /// Ends a stroke under way and hands it out.
    pub fn complete_realtime_stroke(&mut self, stroke_id: u128) -> (result: Result<ActiveStroke, DrawingError>)
        requires
            old(self).wf(),
        ensures
            final(self).wf(),
            final(self).pool() == old(self).pool(),
            forall|id: u64| final(self).layer_size(id) == old(self).layer_size(id),
            forall|id: u128| id != stroke_id ==> final(self).stroke(id) == old(self).stroke(id),
            final(self).stroke(stroke_id) is None,
            old(self).stroke(stroke_id) is None ==> result == Err::<ActiveStroke, DrawingError>(
                DrawingError::StrokeNotFound(stroke_id),
            ),
            old(self).stroke(stroke_id) matches Some(before) ==> result == Ok::<ActiveStroke, DrawingError>(before),
    {
        broadcast use vstd::std_specs::hash::group_hash_axioms;

        match self.active_strokes.remove(&stroke_id) {
            Some(stroke) => Ok(stroke),
            None => Err(DrawingError::StrokeNotFound(stroke_id)),
        }
    }

    /// The number of layers and the figures of the texture pool.
    pub fn get_drawing_stats(&self) -> (result: Result<DrawingStats, DrawingError>)
        requires
            self.wf(),
        ensures
            self.pool() is None ==> result == Err::<DrawingStats, DrawingError>(DrawingError::EngineNotInitialized),
            self.pool() matches Some(pool) ==> result is Ok && result->Ok_0.layers_count == self.layer_count()
                && result->Ok_0.memory_used == pool.usage && result->Ok_0.memory_limit == pool.budget
                && result->Ok_0.active_textures == pool.active.len() && result->Ok_0.total_textures == (if pool.active.len()
                + pool.idle.len() <= usize::MAX {
                pool.active.len() + pool.idle.len()
            } else {
                usize::MAX as nat
            }),
    {
        broadcast use vstd::std_specs::hash::group_hash_axioms;

        match &self.engine {
            Some(manager) => Ok(DrawingStats::from_pool(self.layers.len(), manager.get_memory_stats())),
            None => Err(DrawingError::EngineNotInitialized),
        }
    }

    /// The memory of the textures in mebibytes; zero without a pool.
    pub fn get_system_memory_info(&self) -> (info: SystemMemoryInfo)
        ensures
            info.process_memory_mb == 0,
            info.available_memory_mb == 0,
            info.texture_memory_mb == match self.pool() {
                Some(pool) => pool.usage / 1048576,
                None => 0,
            },
    {
        match &self.engine {
            Some(manager) => SystemMemoryInfo::from_texture_usage(manager.get_memory_usage()),
            None => SystemMemoryInfo::from_texture_usage(0),
        }
    }

    /// Whether the pool holds a texture with the given id.
    pub fn has_texture(&self, texture_id: u64) -> (found: bool)
        ensures
            found == match self.pool() {
                Some(pool) => crate::texture::index_of_id(pool.active, texture_id) < pool.active.len()
                    || crate::texture::index_of_id(pool.idle, texture_id) < pool.idle.len(),
                None => false,
            },
    {
        match &self.engine {
            Some(manager) => manager.contains_texture(texture_id),
            None => false,
        }
    }

    /// Destroys the textures that have been idle for more than five minutes.
    pub fn cleanup_textures(&mut self, now: u64) -> (result: Result<(), DrawingError>)
        requires
            old(self).wf(),
        ensures
            final(self).wf(),
            forall|id: u64| final(self).layer_size(id) == old(self).layer_size(id),
            forall|id: u128| final(self).stroke(id) == old(self).stroke(id),
            old(self).pool() is None ==> result == Err::<(), DrawingError>(DrawingError::EngineNotInitialized)
                && final(self).pool() is None,
            old(self).pool() matches Some(pool) ==> result == Ok::<(), DrawingError>(()) && final(self).pool()
                == Some(pool.destroy_idle(now, crate::texture::CLEANUP_THRESHOLD_MS)),
    {
        let mut manager = match self.engine.take() {
            Some(manager) => manager,
            None => {
                return Err(DrawingError::EngineNotInitialized);
            },
        };
        manager.cleanup_unused_textures(now);
        self.engine = Some(manager);
        Ok(())
    }
}

} // verus!
