//! The texture manager: acquisition with reuse, release into the idle queue,
//! eviction of the least recently used idle textures under memory pressure,
//! and cleanup of textures that have been idle for long.

use vstd::prelude::*;
use crate::renderer::{lemma_padded_row_bytes, padded_row_bytes, ROW_ALIGNMENT};
use crate::texture::{
    evict, first_match, ids_distinct, is_decimal_u64, index_of_id, index_of_layer, keep_fresh, lemma_first_match, lemma_first_match_unique,
    lemma_index_of_id_unique, lemma_index_of_layer, lemma_index_of_layer_unique, lemma_keep_fresh_all,
    lemma_keep_fresh_remove, lemma_lru_index, lemma_lru_index_unique, lemma_total_nonnegative, lemma_total_push,
    lemma_total_remove, lemma_total_update, lemma_valid_size, lru_index, total_size, ManagedTexture, TextureError,
    TextureFormat, TextureSpec, CLEANUP_THRESHOLD_MS, DEFAULT_MEMORY_LIMIT, MAX_TEXTURE_HEIGHT, MAX_TEXTURE_WIDTH,
    USAGE_LAYER,
};

verus! {

/// The state of the pool as contracts see it.
pub struct PoolModel {
    /// Textures in use, in the order in which they were handed out.
    pub active: Seq<ManagedTexture>,
    /// Textures nobody uses, oldest release first.
    pub idle: Seq<ManagedTexture>,
    /// Bytes occupied by all textures, in use or idle.
    pub usage: int,
    /// The ceiling that an allocation may not take `usage` above.
    pub budget: int,
    /// The id that the next new texture gets.
    pub next_id: int,
}

/// A texture handed out by the pool.
#[derive(Debug, Clone, Copy, PartialEq, Eq, Structural)]
pub struct Acquired {
    pub texture_id: u64,
    /// Whether the texture existed before; if not, it has to be created.
    pub reused: bool,
}

/// Where the pixels of a texture land when they are read back.
#[derive(Debug, Clone, Copy, PartialEq, Eq, Structural)]
pub struct ReadbackLayout {
    pub texture_id: u64,
    pub width: u32,
    pub height: u32,
    /// The bytes of one row of the buffer, a multiple of the row alignment.
    pub padded_bytes_per_row: u32,
    /// The bytes of the whole buffer.
    pub buffer_size: u64,
}

/// How an acquisition ends.
pub enum AcquireOutcome {
    /// The dimensions are not acceptable.
    Invalid,
    /// The idle texture at this index of the queue is handed out again.
    Reused(int),
    /// No id is left for a new texture.
    OutOfIds,
    /// The textures in use and the new one together exceed the budget, so
    /// that no eviction can make room.
    OverBudget,
    /// A new texture is created.
    Created,
}

impl PoolModel {
    /// The invariant of the pool.
    pub open spec fn wf(self) -> bool {
        &&& self.usage == total_size(self.active) + total_size(self.idle)
        &&& 1 <= self.next_id
        &&& forall|i: int|
            0 <= i < self.active.len() ==> {
                let t = #[trigger] self.active[i];
                t.is_in_use && t.spec.valid_dimensions() && t.id < self.next_id
            }
        &&& forall|i: int|
            0 <= i < self.idle.len() ==> {
                let t = #[trigger] self.idle[i];
                !t.is_in_use && t.layer is None && t.spec.valid_dimensions() && t.id < self.next_id
            }
        &&& ids_distinct(self.active, self.idle)
        &&& forall|i: int, j: int|
            0 <= i < j < self.active.len() && self.active[i].layer is Some ==> self.active[i].layer
                != self.active[j].layer
    }

    /// The usage that is left when `kept` replaces the idle queue.
    pub open spec fn usage_with(self, kept: Seq<ManagedTexture>) -> int {
        self.usage - total_size(self.idle) + total_size(kept)
    }

    /// The pool after eviction on behalf of an allocation of `need` bytes.
    pub open spec fn evicted(self, need: int) -> PoolModel {
        let kept = evict(self.idle, self.usage, need, self.budget);
        PoolModel { idle: kept, usage: self.usage_with(kept), ..self }
    }

    /// How an acquisition of a texture of shape `spec` ends.
    pub open spec fn acquire_outcome(self, spec: TextureSpec) -> AcquireOutcome {
        let r = first_match(self.idle, spec);
        if !spec.valid_dimensions() {
            AcquireOutcome::Invalid
        } else if r < self.idle.len() {
            AcquireOutcome::Reused(r)
        } else if self.next_id >= u64::MAX {
            AcquireOutcome::OutOfIds
        } else if total_size(self.active) + spec.memory_size_spec() > self.budget {
            AcquireOutcome::OverBudget
        } else {
            AcquireOutcome::Created
        }
    }

    /// The pool after an acquisition of a texture of shape `spec` at time `now`.
    pub open spec fn acquire(self, spec: TextureSpec, now: u64) -> PoolModel {
        match self.acquire_outcome(spec) {
            AcquireOutcome::Invalid => self,
            AcquireOutcome::Reused(r) => PoolModel {
                active: self.active.push(
                    ManagedTexture { last_used: now, is_in_use: true, layer: None, ..self.idle[r] },
                ),
                idle: self.idle.remove(r),
                ..self
            },
            AcquireOutcome::OutOfIds => self,
            AcquireOutcome::OverBudget => self,
            AcquireOutcome::Created => {
                let p = self.evicted(spec.memory_size_spec());
                PoolModel {
                    active: p.active.push(
                        ManagedTexture { id: self.next_id as u64, spec, last_used: now, is_in_use: true, layer: None },
                    ),
                    usage: p.usage + spec.memory_size_spec(),
                    next_id: self.next_id + 1,
                    ..p
                }
            },
        }
    }

    /// Whether `result` is what an acquisition of a texture of shape `spec`
    /// answers: the texture, or the error that belongs to the outcome.
    pub open spec fn acquire_answers(self, spec: TextureSpec, result: Result<Acquired, TextureError>) -> bool {
        match self.acquire_outcome(spec) {
            AcquireOutcome::Invalid => result == Err::<Acquired, TextureError>(
                TextureError::InvalidDimensions(spec.width, spec.height),
            ),
            AcquireOutcome::Reused(r) => result == Ok::<Acquired, TextureError>(
                Acquired { texture_id: self.idle[r].id, reused: true },
            ),
            AcquireOutcome::OutOfIds => result matches Err(TextureError::TextureCreationFailed(_)),
            AcquireOutcome::OverBudget => result == Err::<Acquired, TextureError>(
                TextureError::MemoryLimitExceeded(spec.memory_size_spec() as u64),
            ),
            AcquireOutcome::Created => result == Ok::<Acquired, TextureError>(
                Acquired { texture_id: self.next_id as u64, reused: false },
            ),
        }
    }

    /// Whether an acquisition hands out a texture.
    pub open spec fn acquires(self, spec: TextureSpec) -> bool {
        self.acquire_outcome(spec) is Reused || self.acquire_outcome(spec) is Created
    }

    /// The pool after the texture at index `i` of the textures in use has
    /// gone to the back of the idle queue at time `now`.
    pub open spec fn release_at(self, i: int, now: u64) -> PoolModel {
        if 0 <= i < self.active.len() {
            PoolModel {
                active: self.active.remove(i),
                idle: self.idle.push(
                    ManagedTexture { last_used: now, is_in_use: false, layer: None, ..self.active[i] },
                ),
                ..self
            }
        } else {
            self
        }
    }

    /// The pool after the release of the texture with the given id.
    pub open spec fn release(self, id: u64, now: u64) -> PoolModel {
        self.release_at(index_of_id(self.active, id), now)
    }

    /// The pool after the release of the texture bound to the given layer.
    pub open spec fn unbind(self, layer: u64, now: u64) -> PoolModel {
        self.release_at(index_of_layer(self.active, layer), now)
    }

    /// The pool after every texture idle for more than `older_than`
    /// milliseconds has been destroyed.
    pub open spec fn destroy_idle(self, now: u64, older_than: u64) -> PoolModel {
        let kept = keep_fresh(self.idle, now, older_than);
        PoolModel { idle: kept, usage: self.usage_with(kept), ..self }
    }

    /// The pool after the texture handed out last has been bound to a layer.
    pub open spec fn bind_last(self, layer: u64) -> PoolModel {
        PoolModel {
            active: self.active.update(
                self.active.len() - 1,
                ManagedTexture { layer: Some(layer), ..self.active.last() },
            ),
            ..self
        }
    }

    /// The pool after the texture bound to the given layer has been used at
    /// time `now`.
    pub open spec fn touch(self, layer: u64, now: u64) -> PoolModel {
        let i = index_of_layer(self.active, layer);
        if i < self.active.len() {
            PoolModel { active: self.active.update(i, ManagedTexture { last_used: now, ..self.active[i] }), ..self }
        } else {
            self
        }
    }

    /// The pool after a layer has asked for a texture of shape `spec`: a
    /// texture is acquired while the layer still holds its old one; only
    /// then the old one is released, and the new one is bound to the layer.
    /// Where no texture can be acquired nothing changes.
    pub open spec fn create_layer_texture(self, layer: u64, spec: TextureSpec, now: u64) -> PoolModel {
        let held = index_of_layer(self.active, layer);
        if !self.acquires(spec) {
            self
        } else if held < self.active.len() {
            self.acquire(spec, now).release_at(held, now).bind_last(layer)
        } else {
            self.acquire(spec, now).bind_last(layer)
        }
    }
}

/// Destroying an idle texture keeps the pool well formed and takes the size
/// of the texture off the usage.
proof fn lemma_wf_remove_idle(p: PoolModel, m: int)
    requires
        p.wf(),
        0 <= m < p.idle.len(),
    ensures
        (PoolModel { idle: p.idle.remove(m), usage: p.usage - p.idle[m].spec.memory_size_spec(), ..p }).wf(),
        p.usage - p.idle[m].spec.memory_size_spec() == p.usage_with(p.idle.remove(m)),
        p.usage - p.idle[m].spec.memory_size_spec() >= 0,
{
    let q = PoolModel { idle: p.idle.remove(m), usage: p.usage - p.idle[m].spec.memory_size_spec(), ..p };
    lemma_total_remove(p.idle, m);
    p.idle.remove_ensures(m);
    assert forall|i: int| 0 <= i < q.idle.len() implies {
        let t = #[trigger] q.idle[i];
        !t.is_in_use && t.layer is None && t.spec.valid_dimensions() && t.id < q.next_id
    } by {
        if i < m {
            assert(q.idle[i] == p.idle[i]);
        } else {
            assert(q.idle[i] == p.idle[i + 1]);
        }
    }
    assert forall|i: int, j: int| 0 <= i < j < q.idle.len() implies q.idle[i].id != q.idle[j].id by {
        let a = if i < m { i } else { i + 1 };
        let b = if j < m { j } else { j + 1 };
        assert(q.idle[i] == p.idle[a] && q.idle[j] == p.idle[b]);
    }
    assert forall|i: int, j: int| 0 <= i < q.active.len() && 0 <= j < q.idle.len() implies q.active[i].id
        != q.idle[j].id by {
        let b = if j < m { j } else { j + 1 };
        assert(q.idle[j] == p.idle[b]);
    }
    lemma_total_nonnegative(p.active);
    lemma_total_nonnegative(q.idle);
}

/// Handing out an idle texture again keeps the pool well formed.
proof fn lemma_wf_reuse(p: PoolModel, r: int, now: u64)
    requires
        p.wf(),
        0 <= r < p.idle.len(),
    ensures
        (PoolModel {
            active: p.active.push(ManagedTexture { last_used: now, is_in_use: true, layer: None, ..p.idle[r] }),
            idle: p.idle.remove(r),
            ..p
        }).wf(),
{
    let t = ManagedTexture { last_used: now, is_in_use: true, layer: None, ..p.idle[r] };
    let q = PoolModel { active: p.active.push(t), idle: p.idle.remove(r), ..p };
    lemma_total_remove(p.idle, r);
    lemma_total_push(p.active, t);
    p.idle.remove_ensures(r);
    assert forall|i: int| 0 <= i < q.idle.len() implies {
        let t = #[trigger] q.idle[i];
        !t.is_in_use && t.layer is None && t.spec.valid_dimensions() && t.id < q.next_id
    } by {
        if i < r {
            assert(q.idle[i] == p.idle[i]);
        } else {
            assert(q.idle[i] == p.idle[i + 1]);
        }
    }
    assert forall|i: int| 0 <= i < q.active.len() implies {
        let t = #[trigger] q.active[i];
        t.is_in_use && t.spec.valid_dimensions() && t.id < q.next_id
    } by {
        if i < p.active.len() {
            assert(q.active[i] == p.active[i]);
        }
    }
    assert forall|i: int, j: int| 0 <= i < j < q.idle.len() implies q.idle[i].id != q.idle[j].id by {
        let a = if i < r { i } else { i + 1 };
        let b = if j < r { j } else { j + 1 };
        assert(q.idle[i] == p.idle[a] && q.idle[j] == p.idle[b]);
    }
    assert forall|i: int, j: int| 0 <= i < j < q.active.len() implies q.active[i].id != q.active[j].id by {
        assert(q.active[i] == p.active[i]);
        if j < p.active.len() {
            assert(q.active[j] == p.active[j]);
        }
    }
    assert forall|i: int, j: int| 0 <= i < q.active.len() && 0 <= j < q.idle.len() implies q.active[i].id
        != q.idle[j].id by {
        let b = if j < r { j } else { j + 1 };
        assert(q.idle[j] == p.idle[b]);
        if i < p.active.len() {
            assert(q.active[i] == p.active[i]);
        }
    }
    assert forall|i: int, j: int|
        0 <= i < j < q.active.len() && q.active[i].layer is Some implies q.active[i].layer != q.active[j].layer by {
        assert(q.active[i] == p.active[i]);
        if j < p.active.len() {
            assert(q.active[j] == p.active[j]);
        }
    }
}

/// A release keeps the pool well formed and the usage as it is, and leaves
/// no texture in use that is bound to the layer of the released one.
proof fn lemma_wf_release_at(p: PoolModel, i: int, now: u64)
    requires
        p.wf(),
    ensures
        p.release_at(i, now).wf(),
        p.release_at(i, now).usage == p.usage,
        0 <= i < p.active.len() ==> forall|k: int|
            0 <= k < p.release_at(i, now).active.len() ==> (#[trigger] p.release_at(i, now).active[k]).layer
                != p.active[i].layer || p.active[i].layer is None,
{
    if 0 <= i < p.active.len() {
        let t = ManagedTexture { last_used: now, is_in_use: false, layer: None, ..p.active[i] };
        let q = p.release_at(i, now);
        lemma_total_remove(p.active, i);
        lemma_total_push(p.idle, t);
        p.active.remove_ensures(i);
        assert forall|k: int| 0 <= k < q.active.len() implies {
            let t = #[trigger] q.active[k];
            t.is_in_use && t.spec.valid_dimensions() && t.id < q.next_id
        } by {
            if k < i {
                assert(q.active[k] == p.active[k]);
            } else {
                assert(q.active[k] == p.active[k + 1]);
            }
        }
        assert forall|k: int| 0 <= k < q.idle.len() implies {
            let t = #[trigger] q.idle[k];
            !t.is_in_use && t.layer is None && t.spec.valid_dimensions() && t.id < q.next_id
        } by {
            if k < p.idle.len() {
                assert(q.idle[k] == p.idle[k]);
            }
        }
        assert forall|a: int, b: int| 0 <= a < b < q.active.len() implies q.active[a].id != q.active[b].id by {
            let a2 = if a < i { a } else { a + 1 };
            let b2 = if b < i { b } else { b + 1 };
            assert(q.active[a] == p.active[a2] && q.active[b] == p.active[b2]);
        }
        assert forall|a: int, b: int| 0 <= a < b < q.idle.len() implies q.idle[a].id != q.idle[b].id by {
            assert(q.idle[a] == p.idle[a]);
            if b < p.idle.len() {
                assert(q.idle[b] == p.idle[b]);
            }
        }
        assert forall|a: int, b: int| 0 <= a < q.active.len() && 0 <= b < q.idle.len() implies q.active[a].id
            != q.idle[b].id by {
            let a2 = if a < i { a } else { a + 1 };
            assert(q.active[a] == p.active[a2]);
            if b < p.idle.len() {
                assert(q.idle[b] == p.idle[b]);
            }
        }
        assert forall|a: int, b: int|
            0 <= a < b < q.active.len() && q.active[a].layer is Some implies q.active[a].layer
            != q.active[b].layer by {
            let a2 = if a < i { a } else { a + 1 };
            let b2 = if b < i { b } else { b + 1 };
            assert(q.active[a] == p.active[a2] && q.active[b] == p.active[b2]);
        }
        assert forall|k: int| 0 <= k < q.active.len() implies (#[trigger] q.active[k]).layer != p.active[i].layer
            || p.active[i].layer is None by {
            let k2 = if k < i { k } else { k + 1 };
            assert(q.active[k] == p.active[k2]);
        }
    }
}

/// Creating a texture under the next id keeps the pool well formed.
proof fn lemma_wf_create(p: PoolModel, spec: TextureSpec, now: u64)
    requires
        p.wf(),
        spec.valid_dimensions(),
        p.next_id < u64::MAX,
    ensures
        (PoolModel {
            active: p.active.push(
                ManagedTexture { id: p.next_id as u64, spec, last_used: now, is_in_use: true, layer: None },
            ),
            usage: p.usage + spec.memory_size_spec(),
            next_id: p.next_id + 1,
            ..p
        }).wf(),
{
    let t = ManagedTexture { id: p.next_id as u64, spec, last_used: now, is_in_use: true, layer: None };
    let q = PoolModel {
        active: p.active.push(t),
        usage: p.usage + spec.memory_size_spec(),
        next_id: p.next_id + 1,
        ..p
    };
    lemma_total_push(p.active, t);
    assert forall|i: int| 0 <= i < q.active.len() implies {
        let t = #[trigger] q.active[i];
        t.is_in_use && t.spec.valid_dimensions() && t.id < q.next_id
    } by {
        if i < p.active.len() {
            assert(q.active[i] == p.active[i]);
        }
    }
    assert forall|i: int, j: int| 0 <= i < j < q.active.len() implies q.active[i].id != q.active[j].id by {
        assert(q.active[i] == p.active[i]);
        if j < p.active.len() {
            assert(q.active[j] == p.active[j]);
        }
    }
    assert forall|i: int, j: int| 0 <= i < q.active.len() && 0 <= j < q.idle.len() implies q.active[i].id
        != q.idle[j].id by {
        if i < p.active.len() {
            assert(q.active[i] == p.active[i]);
        }
    }
    assert forall|i: int, j: int|
        0 <= i < j < q.active.len() && q.active[i].layer is Some implies q.active[i].layer != q.active[j].layer by {
        assert(q.active[i] == p.active[i]);
        if j < p.active.len() {
            assert(q.active[j] == p.active[j]);
        }
    }
}

/// Binding the texture handed out last to a layer that has none keeps the
/// pool well formed.
proof fn lemma_wf_bind_last(p: PoolModel, layer: u64)
    requires
        p.wf(),
        p.active.len() > 0,
        forall|k: int| 0 <= k < p.active.len() ==> (#[trigger] p.active[k]).layer != Some(layer),
    ensures
        p.bind_last(layer).wf(),
{
    let n = p.active.len() - 1;
    let t = ManagedTexture { layer: Some(layer), ..p.active.last() };
    let q = p.bind_last(layer);
    lemma_total_update(p.active, n, t);
    assert forall|i: int| 0 <= i < q.active.len() implies {
        let t = #[trigger] q.active[i];
        t.is_in_use && t.spec.valid_dimensions() && t.id < q.next_id
    } by {
        assert(p.active[i].is_in_use);
    }
    assert forall|i: int, j: int| 0 <= i < j < q.active.len() implies q.active[i].id != q.active[j].id by {
        assert(p.active[i].id != p.active[j].id);
    }
    assert forall|i: int, j: int| 0 <= i < q.active.len() && 0 <= j < q.idle.len() implies q.active[i].id
        != q.idle[j].id by {
        assert(p.active[i].id != p.idle[j].id);
    }
    assert forall|i: int, j: int|
        0 <= i < j < q.active.len() && q.active[i].layer is Some implies q.active[i].layer != q.active[j].layer by {
        assert(p.active[i].layer != Some(layer));
        assert(p.active[j].layer != Some(layer) || j == n);
    }
}

/// Recording a use keeps the pool well formed.
proof fn lemma_wf_touch(p: PoolModel, layer: u64, now: u64)
    requires
        p.wf(),
    ensures
        p.touch(layer, now).wf(),
{
    let i = index_of_layer(p.active, layer);
    lemma_index_of_layer(p.active, layer);
    if i < p.active.len() {
        let t = ManagedTexture { last_used: now, ..p.active[i] };
        let q = p.touch(layer, now);
        lemma_total_update(p.active, i, t);
        assert forall|k: int| 0 <= k < q.active.len() implies {
            let t = #[trigger] q.active[k];
            t.is_in_use && t.spec.valid_dimensions() && t.id < q.next_id
        } by {
            assert(p.active[k].is_in_use);
        }
        assert forall|a: int, b: int| 0 <= a < b < q.active.len() implies q.active[a].id != q.active[b].id by {
            assert(p.active[a].id != p.active[b].id);
        }
        assert forall|a: int, b: int| 0 <= a < q.active.len() && 0 <= b < q.idle.len() implies q.active[a].id
            != q.idle[b].id by {
            assert(p.active[a].id != p.idle[b].id);
        }
        assert forall|a: int, b: int|
            0 <= a < b < q.active.len() && q.active[a].layer is Some implies q.active[a].layer
            != q.active[b].layer by {
            assert(p.active[a].layer is Some ==> p.active[a].layer != p.active[b].layer);
        }
    }
}

/// Eviction keeps the pool well formed, touches nothing but the idle queue
/// and the usage, and ends with room for the allocation or with no idle
/// texture left.
pub proof fn lemma_evicted(p: PoolModel, need: int)
    requires
        p.wf(),
    ensures
        p.evicted(need).wf(),
        p.evicted(need).active == p.active,
        p.evicted(need).budget == p.budget,
        p.evicted(need).next_id == p.next_id,
        p.evicted(need).usage <= p.usage,
        p.evicted(need).usage + need <= p.budget || p.evicted(need).idle.len() == 0,
    decreases p.idle.len(),
{
    let m = lru_index(p.idle);
    if p.usage + need <= p.budget || !(0 <= m < p.idle.len()) {
        assert(p.evicted(need) == p);
        if p.idle.len() > 0 {
            lemma_lru_index(p.idle);
        }
    } else {
        let q = PoolModel { idle: p.idle.remove(m), usage: p.usage - p.idle[m].spec.memory_size_spec(), ..p };
        lemma_wf_remove_idle(p, m);
        lemma_valid_size(p.idle[m].spec);
        lemma_evicted(q, need);
        assert(q.evicted(need) == p.evicted(need));
    }
}

/// An acquisition keeps the pool well formed.
pub proof fn lemma_acquire_wf(p: PoolModel, spec: TextureSpec, now: u64)
    requires
        p.wf(),
    ensures
        p.acquire(spec, now).wf(),
{
    lemma_first_match(p.idle, spec);
    match p.acquire_outcome(spec) {
        AcquireOutcome::Reused(r) => {
            lemma_wf_reuse(p, r, now);
        },
        AcquireOutcome::Created => {
            lemma_evicted(p, spec.memory_size_spec());
            lemma_wf_create(p.evicted(spec.memory_size_spec()), spec, now);
        },
        _ => {},
    }
}

/// Textures in use are never evicted: whatever an acquisition does, every
/// texture that was in use before is still in use afterwards, unchanged and
/// in the same place.
pub proof fn lemma_acquire_keeps_active(p: PoolModel, spec: TextureSpec, now: u64, i: int)
    requires
        p.wf(),
        0 <= i < p.active.len(),
    ensures
        i < p.acquire(spec, now).active.len(),
        p.acquire(spec, now).active[i] == p.active[i],
{
    lemma_evicted(p, spec.memory_size_spec());
}

/// After a texture has been created the usage is within the budget, and it
/// has grown by no more than the size of the new texture.
pub proof fn lemma_created_within_budget(p: PoolModel, spec: TextureSpec, now: u64)
    requires
        p.wf(),
        p.acquire_outcome(spec) is Created,
    ensures
        p.acquire(spec, now).usage <= p.budget,
        p.acquire(spec, now).usage <= p.usage + spec.memory_size_spec(),
{
    lemma_room_after_eviction(p, spec.memory_size_spec());
}

/// An acquisition that fails changes nothing: no texture is created,
/// released or destroyed, and the usage is as it was.
pub proof fn lemma_failed_acquire_changes_nothing(p: PoolModel, spec: TextureSpec, now: u64)
    requires
        !p.acquires(spec),
    ensures
        p.acquire(spec, now) == p,
{
}

/// A request for a layer texture that fails changes nothing: the layer
/// keeps the texture that it holds, still in use.
pub proof fn lemma_failed_layer_texture_changes_nothing(p: PoolModel, layer: u64, spec: TextureSpec, now: u64)
    requires
        !p.acquires(spec),
    ensures
        p.create_layer_texture(layer, spec, now) == p,
{
}

/// A new texture is refused for want of memory exactly when the textures in
/// use and the new one together exceed the budget: where they do not, evicting
/// idle textures makes room.
pub proof fn lemma_room_after_eviction(p: PoolModel, need: int)
    requires
        p.wf(),
        total_size(p.active) + need <= p.budget,
    ensures
        p.evicted(need).usage + need <= p.budget,
{
    lemma_evicted(p, need);
    let q = p.evicted(need);
    if q.idle.len() == 0 {
        assert(total_size(q.idle) == 0);
    }
}

/// Where the size is acceptable, no idle texture has the wanted width and
/// height and an id is left, a texture is refused for want of memory exactly
/// when the textures in use and the new one together exceed the budget;
/// otherwise it is created. Unacceptable dimensions are the only ground for
/// the other refusal.
pub proof fn lemma_memory_decides(p: PoolModel, spec: TextureSpec)
    requires
        p.wf(),
    ensures
        p.acquire_outcome(spec) is Invalid <==> !spec.valid_dimensions(),
        spec.valid_dimensions() && first_match(p.idle, spec) >= p.idle.len() && p.next_id < u64::MAX ==> (
        p.acquire_outcome(spec) is OverBudget <==> total_size(p.active) + spec.memory_size_spec() > p.budget),
        spec.valid_dimensions() && first_match(p.idle, spec) >= p.idle.len() && p.next_id < u64::MAX ==> (
        p.acquire_outcome(spec) is Created <==> total_size(p.active) + spec.memory_size_spec() <= p.budget),
{
    lemma_first_match(p.idle, spec);
}

/// Where an idle texture of the wanted width and height exists, the
/// acquisition succeeds by reuse: the usage stays as it is and no texture is
/// created or destroyed.
pub proof fn lemma_reuse_keeps_usage(p: PoolModel, spec: TextureSpec, now: u64, i: int)
    requires
        p.wf(),
        spec.valid_dimensions(),
        0 <= i < p.idle.len(),
        p.idle[i].spec.same_shape(spec),
    ensures
        p.acquire_outcome(spec) is Reused,
        p.acquire(spec, now).usage == p.usage,
        p.acquire(spec, now).next_id == p.next_id,
        p.acquire(spec, now).active.len() + p.acquire(spec, now).idle.len() == p.active.len() + p.idle.len(),
{
    lemma_first_match(p.idle, spec);
    let r = first_match(p.idle, spec);
    if r >= p.idle.len() {
        assert(!p.idle[i].spec.same_shape(spec));
    }
    p.idle.remove_ensures(r);
}

/// No duplicate accounting: when a texture is acquired, released and a
/// texture of the same shape is acquired again, the second acquisition
/// reuses memory, and the usage is what it was after the first.
pub proof fn lemma_acquire_release_acquire(p: PoolModel, spec: TextureSpec, t1: u64, t2: u64, t3: u64)
    requires
        p.wf(),
        p.acquires(spec),
    ensures
        ({
            let first = p.acquire(spec, t1);
            let released = first.release(first.active.last().id, t2);
            let second = released.acquire(spec, t3);
            &&& released.usage == first.usage
            &&& released.acquire_outcome(spec) is Reused
            &&& second.usage == first.usage
            &&& second.usage <= first.usage + spec.memory_size_spec()
        }),
{
    let first = p.acquire(spec, t1);
    lemma_acquire_wf(p, spec, t1);
    lemma_first_match(p.idle, spec);
    lemma_evicted(p, spec.memory_size_spec());
    let n = first.active.len() - 1;
    assert(first.active.len() > 0);
    assert(first.active.last().spec.same_shape(spec));
    let id = first.active.last().id;
    assert forall|j: int| 0 <= j < n implies (#[trigger] first.active[j]).id != id by {
        assert(first.active[j].id != first.active[n].id);
    }
    lemma_index_of_id_unique(first.active, id, n);
    let released = first.release(id, t2);
    lemma_wf_release_at(first, n, t2);
    let k = released.idle.len() - 1;
    assert(released.idle[k].spec.same_shape(spec));
    lemma_valid_size(spec);
    lemma_reuse_keeps_usage(released, spec, t3, k);
}

/// Releasing a texture keeps the usage: its memory stays with the pool.
pub proof fn lemma_release_keeps_usage(p: PoolModel, id: u64, now: u64)
    requires
        p.wf(),
    ensures
        p.release(id, now).wf(),
        p.release(id, now).usage == p.usage,
        p.release(id, now).active.len() + p.release(id, now).idle.len() == p.active.len() + p.idle.len(),
{
    lemma_wf_release_at(p, index_of_id(p.active, id), now);
    let i = index_of_id(p.active, id);
    if 0 <= i < p.active.len() {
        p.active.remove_ensures(i);
    }
}

/// What a request of a layer for a texture of `width` x `height` pixels
/// does and answers: the pool changes as the model says; the answer is the
/// texture or the error of the acquisition; an error leaves the pool as it
/// was; and on success the texture handed out is the last one in use, bound
/// to the layer and of the size asked for.
pub open spec fn layer_texture_created(
    before: PoolModel,
    after: PoolModel,
    layer_id: u64,
    width: u32,
    height: u32,
    now: u64,
    result: Result<Acquired, TextureError>,
) -> bool {
    let spec = TextureSpec { width, height, format: TextureFormat::Rgba8UnormSrgb, usage: USAGE_LAYER };
    &&& after == before.create_layer_texture(layer_id, spec, now)
    &&& before.acquire_answers(spec, result)
    &&& result is Ok <==> before.acquires(spec)
    &&& result is Err ==> after == before
    &&& result matches Ok(a) ==> {
        &&& after.active.len() > 0
        &&& after.active.last().id == a.texture_id
        &&& after.active.last().layer == Some(layer_id)
        &&& after.active.last().is_in_use
        &&& after.active.last().last_used == now
        &&& after.active.last().spec.width == width
        &&& after.active.last().spec.height == height
        &&& index_of_layer(after.active, layer_id) == after.active.len() - 1
    }
}

/// The texture pool.
pub struct TextureManager {
    active: Vec<ManagedTexture>,
    idle: Vec<ManagedTexture>,
    current_memory_usage: u64,
    memory_limit: u64,
    next_texture_id: u64,
}

impl View for TextureManager {
    type V = PoolModel;

    closed spec fn view(&self) -> PoolModel {
        PoolModel {
            active: self.active@,
            idle: self.idle@,
            usage: self.current_memory_usage as int,
            budget: self.memory_limit as int,
            next_id: self.next_texture_id as int,
        }
    }
}

impl TextureManager {
    /// An empty pool with the default budget.
    pub fn new() -> (manager: TextureManager)
        ensures
            manager@.wf(),
            manager@.active.len() == 0,
            manager@.idle.len() == 0,
            manager@.usage == 0,
            manager@.budget == DEFAULT_MEMORY_LIMIT,
            manager@.next_id == 1,
    {
        TextureManager {
            active: Vec::new(),
            idle: Vec::new(),
            current_memory_usage: 0,
            memory_limit: DEFAULT_MEMORY_LIMIT,
            next_texture_id: 1,
        }
    }

    /// Sets the budget. Textures that exist stay, also above the new budget.
    pub fn set_memory_limit(&mut self, limit_bytes: u64)
        ensures
            final(self)@ == (PoolModel { budget: limit_bytes as int, ..old(self)@ }),
    {
        self.memory_limit = limit_bytes;
    }

    /// Bytes occupied by all textures of the pool.
    pub fn get_memory_usage(&self) -> (usage: u64)
        ensures
            usage == self@.usage,
    {
        self.current_memory_usage
    }

    /// Usage, budget, number of textures in use and number of all textures
    /// (the largest `usize` if the true number does not fit).
    pub fn get_memory_stats(&self) -> (stats: (u64, u64, usize, usize))
        ensures
            stats.0 == self@.usage,
            stats.1 == self@.budget,
            stats.2 == self@.active.len(),
            stats.3 == if self@.active.len() + self@.idle.len() <= usize::MAX {
                self@.active.len() + self@.idle.len()
            } else {
                usize::MAX as nat
            },
    {
        let total: usize = match self.active.len().checked_add(self.idle.len()) {
            Some(n) => n,
            None => usize::MAX,
        };
        (self.current_memory_usage, self.memory_limit, self.active.len(), total)
    }

    /// Whether the pool holds a texture with the given id, in use or idle.
    pub fn contains_texture(&self, texture_id: u64) -> (found: bool)
        ensures
            found == (index_of_id(self@.active, texture_id) < self@.active.len() || index_of_id(
                self@.idle,
                texture_id,
            ) < self@.idle.len()),
    {
        let a = Self::find_id(&self.active, texture_id);
        let b = Self::find_id(&self.idle, texture_id);
        a < self.active.len() || b < self.idle.len()
    }

    /// The index of the first texture of a list with the given id.
    fn find_id(list: &Vec<ManagedTexture>, texture_id: u64) -> (index: usize)
        ensures
            index == index_of_id(list@, texture_id),
    {
        let mut i: usize = 0;
        while i < list.len() && list[i].id != texture_id
            invariant
                i <= list.len(),
                forall|j: int| 0 <= j < i ==> (#[trigger] list@[j]).id != texture_id,
            decreases list.len() - i,
        {
            i = i + 1;
        }
        proof {
            lemma_index_of_id_unique(list@, texture_id, i as int);
        }
        i
    }

    /// The index of the first texture of a list bound to the given layer.
    fn find_layer(list: &Vec<ManagedTexture>, layer_id: u64) -> (index: usize)
        ensures
            index == index_of_layer(list@, layer_id),
    {
        let mut i: usize = 0;
        while i < list.len() && !Self::bound_to(&list[i], layer_id)
            invariant
                i <= list.len(),
                forall|j: int| 0 <= j < i ==> (#[trigger] list@[j]).layer != Some(layer_id),
            decreases list.len() - i,
        {
            i = i + 1;
        }
        proof {
            lemma_index_of_layer_unique(list@, layer_id, i as int);
        }
        i
    }

    /// Whether a texture is bound to the given layer.
    fn bound_to(texture: &ManagedTexture, layer_id: u64) -> (bound: bool)
        ensures
            bound == (texture.layer == Some(layer_id)),
    {
        match texture.layer {
            Some(l) => l == layer_id,
            None => false,
        }
    }

    /// The index of the first texture of a list with the width and height of
    /// the given shape.
    fn find_spec(list: &Vec<ManagedTexture>, spec: &TextureSpec) -> (index: usize)
        ensures
            index == first_match(list@, *spec),
    {
        let mut i: usize = 0;
        while i < list.len() && !list[i].spec.has_same_shape(spec)
            invariant
                i <= list.len(),
                forall|j: int| 0 <= j < i ==> !(#[trigger] list@[j]).spec.same_shape(*spec),
            decreases list.len() - i,
        {
            i = i + 1;
        }
        proof {
            lemma_first_match_unique(list@, *spec, i as int);
        }
        i
    }

    /// The index of the least recently used texture of a list.
    fn find_lru(list: &Vec<ManagedTexture>) -> (index: usize)
        requires
            list@.len() > 0,
        ensures
            index == lru_index(list@),
            index < list@.len(),
    {
        let mut m: usize = 0;
        let mut k: usize = 1;
        while k < list.len()
            invariant
                m < k <= list.len(),
                forall|j: int| 0 <= j < k ==> list@[m as int].last_used <= (#[trigger] list@[j]).last_used,
                forall|j: int| 0 <= j < m ==> list@[m as int].last_used < (#[trigger] list@[j]).last_used,
            decreases list.len() - k,
        {
            if list[k].last_used < list[m].last_used {
                m = k;
            }
            k = k + 1;
        }
        proof {
            lemma_lru_index_unique(list@, m as int);
        }
        m
    }

    /// Whether `required` more bytes fit under the budget.
    fn fits(&self, required: u64) -> (ok: bool)
        ensures
            ok == (self@.usage + required <= self@.budget),
    {
        required <= self.memory_limit && self.current_memory_usage <= self.memory_limit - required
    }

    /// Makes room for `required` bytes: while they do not fit and an idle
    /// texture is left, the least recently used idle texture is destroyed.
    /// Textures in use are never touched. Fails if the bytes still do not fit.
    pub fn force_cleanup_memory(&mut self, required_memory: u64) -> (result: Result<(), TextureError>)
        requires
            old(self)@.wf(),
        ensures
            final(self)@ == old(self)@.evicted(required_memory as int),
            final(self)@.wf(),
            final(self)@.usage + required_memory <= final(self)@.budget ==> result == Ok::<(), TextureError>(()),
            final(self)@.usage + required_memory > final(self)@.budget ==> result == Err::<(), TextureError>(
                TextureError::MemoryLimitExceeded(required_memory),
            ),
    {
        let ghost start = self@;
        while self.idle.len() > 0 && !self.fits(required_memory)
            invariant
                self@.wf(),
                self@.active == start.active,
                self@.budget == start.budget,
                self@.next_id == start.next_id,
                self@.evicted(required_memory as int) == start.evicted(required_memory as int),
            decreases self.idle.len(),
        {
            let m = Self::find_lru(&self.idle);
            proof {
                lemma_wf_remove_idle(self@, m as int);
                lemma_valid_size(self.idle@[m as int].spec);
            }
            let victim = self.idle.remove(m);
            self.current_memory_usage = self.current_memory_usage - victim.spec.memory_size();
        }
        proof {
            if self.idle@.len() > 0 {
                lemma_lru_index(self.idle@);
            }
            assert(self@.evicted(required_memory as int) == self@);
        }
        if self.fits(required_memory) {
            Ok(())
        } else {
            Err(TextureError::MemoryLimitExceeded(required_memory))
        }
    }

    /// Bytes occupied by the idle textures.
    fn idle_bytes(&self) -> (bytes: u64)
        requires
            self@.wf(),
        ensures
            bytes == total_size(self@.idle),
            bytes <= self@.usage,
    {
        let mut sum: u128 = 0;
        let mut i: usize = 0;
        while i < self.idle.len()
            invariant
                self@.wf(),
                i <= self.idle@.len(),
                sum == total_size(self.idle@.subrange(0, i as int)),
                sum <= i * 33177600,
            decreases self.idle@.len() - i,
        {
            proof {
                lemma_valid_size(self.idle@[i as int].spec);
                assert(self.idle@.subrange(0, i + 1).drop_last() =~= self.idle@.subrange(0, i as int));
            }
            sum = sum + self.idle[i].spec.memory_size() as u128;
            i = i + 1;
        }
        proof {
            assert(self.idle@.subrange(0, self.idle@.len() as int) =~= self.idle@);
            lemma_total_nonnegative(self@.active);
        }
        sum as u64
    }

    /// Hands out a texture of shape `spec` at time `now`.
    ///
    /// An idle texture of the same width and height is reused, the one
    /// released first. Otherwise a new texture is created, after eviction if
    /// it does not fit under the budget. Where the textures in use leave no
    /// room for it, it is refused, and nothing changes.
    pub fn acquire(&mut self, spec: &TextureSpec, now: u64) -> (result: Result<Acquired, TextureError>)
        requires
            old(self)@.wf(),
        ensures
            final(self)@ == old(self)@.acquire(*spec, now),
            final(self)@.wf(),
            old(self)@.acquire_answers(*spec, result),
            result is Ok <==> old(self)@.acquires(*spec),
            result is Err ==> final(self)@ == old(self)@,
            result matches Ok(a) ==> final(self)@.active.len() == old(self)@.active.len() + 1,
            result matches Ok(a) ==> forall|k: int|
                0 <= k < old(self)@.active.len() ==> final(self)@.active[k] == old(self)@.active[k],
            result matches Ok(a) ==> final(self)@.active.last() == (ManagedTexture {
                id: a.texture_id,
                spec: final(self)@.active.last().spec,
                last_used: now,
                is_in_use: true,
                layer: None,
            }),
            result matches Ok(a) ==> final(self)@.active.last().spec.same_shape(*spec),
            result matches Ok(a) ==> !a.reused ==> final(self)@.active.last().spec == *spec,
    {
        proof {
            lemma_first_match(self@.idle, *spec);
        }
        if !spec.has_valid_dimensions() {
            return Err(TextureError::InvalidDimensions(spec.width, spec.height));
        }
        proof {
            lemma_valid_size(*spec);
        }
        let r = Self::find_spec(&self.idle, spec);
        if r < self.idle.len() {
            proof {
                lemma_wf_reuse(self@, r as int, now);
            }
            let mut texture = self.idle.remove(r);
            texture.mark_used(now);
            let texture_id = texture.id;
            self.active.push(texture);
            return Ok(Acquired { texture_id, reused: true });
        }
        if self.next_texture_id == u64::MAX {
            return Err(TextureError::TextureCreationFailed("texture ids are used up".to_string()));
        }
        let size = spec.memory_size();
        let in_use: u64 = self.current_memory_usage - self.idle_bytes();
        if size > self.memory_limit || in_use > self.memory_limit - size {
            return Err(TextureError::MemoryLimitExceeded(size));
        }
        proof {
            lemma_evicted(self@, size as int);
            lemma_room_after_eviction(self@, size as int);
        }
        match self.force_cleanup_memory(size) {
            Err(e) => Err(e),
            Ok(()) => {
                proof {
                    lemma_wf_create(self@, *spec, now);
                }
                let texture_id = self.next_texture_id;
                let mut texture = ManagedTexture::new(texture_id, *spec, now);
                texture.mark_used(now);
                self.active.push(texture);
                self.current_memory_usage = self.current_memory_usage + size;
                self.next_texture_id = self.next_texture_id + 1;
                Ok(Acquired { texture_id, reused: false })
            },
        }
    }

    /// Returns the texture with the given id to the pool at time `now`: it
    /// goes to the back of the idle queue, unbound, and keeps its memory.
    /// Returns whether a texture in use had that id.
    pub fn release(&mut self, texture_id: u64, now: u64) -> (released: bool)
        requires
            old(self)@.wf(),
        ensures
            final(self)@ == old(self)@.release(texture_id, now),
            final(self)@.wf(),
            released == (index_of_id(old(self)@.active, texture_id) < old(self)@.active.len()),
    {
        let i = Self::find_id(&self.active, texture_id);
        self.release_texture(i, now)
    }

    /// Moves the texture at index `i` of the textures in use to the idle queue.
    fn release_texture(&mut self, i: usize, now: u64) -> (released: bool)
        requires
            old(self)@.wf(),
        ensures
            final(self)@ == old(self)@.release_at(i as int, now),
            final(self)@.wf(),
            released == (i < old(self)@.active.len()),
    {
        proof {
            lemma_wf_release_at(self@, i as int, now);
        }
        if i < self.active.len() {
            let mut texture = self.active.remove(i);
            texture.mark_unused();
            texture.last_used = now;
            texture.layer = None;
            self.idle.push(texture);
            true
        } else {
            false
        }
    }

    /// Destroys every idle texture that has been idle for more than
    /// `older_than` milliseconds at time `now`. Textures in use stay.
    pub fn destroy_idle(&mut self, now: u64, older_than: u64)
        requires
            old(self)@.wf(),
        ensures
            final(self)@ == old(self)@.destroy_idle(now, older_than),
            final(self)@.wf(),
    {
        let ghost start = self@;
        let mut i: usize = 0;
        while i < self.idle.len()
            invariant
                self@.wf(),
                i <= self.idle@.len(),
                self@.active == start.active,
                self@.budget == start.budget,
                self@.next_id == start.next_id,
                self@.usage == start.usage_with(self@.idle),
                keep_fresh(self@.idle, now, older_than) == keep_fresh(start.idle, now, older_than),
                forall|j: int| 0 <= j < i ==> !(#[trigger] self@.idle[j]).expired(now, older_than),
            decreases self.idle.len() - i,
        {
            let last_used = self.idle[i].last_used;
            if now > last_used && now - last_used > older_than {
                proof {
                    lemma_wf_remove_idle(self@, i as int);
                    lemma_keep_fresh_remove(self@.idle, i as int, now, older_than);
                    lemma_valid_size(self.idle@[i as int].spec);
                    self@.idle.remove_ensures(i as int);
                }
                let victim = self.idle.remove(i);
                self.current_memory_usage = self.current_memory_usage - victim.spec.memory_size();
            } else {
                i = i + 1;
            }
        }
        proof {
            lemma_keep_fresh_all(self@.idle, now, older_than);
        }
    }

    /// Routine cleanup: destroys what has been idle for more than five minutes.
    pub fn cleanup_unused_textures(&mut self, now: u64)
        requires
            old(self)@.wf(),
        ensures
            final(self)@ == old(self)@.destroy_idle(now, CLEANUP_THRESHOLD_MS),
            final(self)@.wf(),
    {
        self.destroy_idle(now, CLEANUP_THRESHOLD_MS)
    }

    /// The texture bound to a layer, if the layer has one.
    pub fn get_layer_texture(&self, layer_id: u64) -> (texture: Option<ManagedTexture>)
        ensures
            texture == if index_of_layer(self@.active, layer_id) < self@.active.len() {
                Some(self@.active[index_of_layer(self@.active, layer_id)])
            } else {
                None
            },
    {
        let i = Self::find_layer(&self.active, layer_id);
        if i < self.active.len() {
            Some(self.active[i])
        } else {
            None
        }
    }

    /// Where the pixels of the texture of a layer land when they are read
    /// back: in a buffer of one padded row for each row of pixels. A layer
    /// without a texture is reported by its number.
    pub fn readback_layout(&self, layer_id: u64) -> (result: Result<ReadbackLayout, TextureError>)
        requires
            self@.wf(),
        ensures
            index_of_layer(self@.active, layer_id) >= self@.active.len() ==> (result matches Err(
                TextureError::TextureNotFound(name),
            ) && is_decimal_u64(layer_id, name@)),
            index_of_layer(self@.active, layer_id) < self@.active.len() ==> {
                let t = self@.active[index_of_layer(self@.active, layer_id)];
                result == Ok::<ReadbackLayout, TextureError>(
                    ReadbackLayout {
                        texture_id: t.id,
                        width: t.spec.width,
                        height: t.spec.height,
                        padded_bytes_per_row: padded_row_bytes(t.spec.width as int) as u32,
                        buffer_size: (padded_row_bytes(t.spec.width as int) * t.spec.height) as u64,
                    },
                )
            },
    {
        let i = Self::find_layer(&self.active, layer_id);
        if i >= self.active.len() {
            let name = layer_id.to_string();
            assert(is_decimal_u64(layer_id, name@));
            return Err(TextureError::TextureNotFound(name));
        }
        let texture = self.active[i];
        proof {
            lemma_padded_row_bytes(texture.spec.width as int);
            assert(texture.spec.valid_dimensions());
        }
        let unpadded_bytes_per_row: u32 = texture.spec.width * 4;
        let padded_bytes_per_row: u32 = (unpadded_bytes_per_row + ROW_ALIGNMENT - 1) / ROW_ALIGNMENT * ROW_ALIGNMENT;
        assert(padded_bytes_per_row * texture.spec.height <= 15616 * 2160) by (nonlinear_arith)
            requires
                0 <= padded_bytes_per_row <= 15616,
                0 <= texture.spec.height <= 2160,
        ;
        Ok(
            ReadbackLayout {
                texture_id: texture.id,
                width: texture.spec.width,
                height: texture.spec.height,
                padded_bytes_per_row,
                buffer_size: padded_bytes_per_row as u64 * texture.spec.height as u64,
            },
        )
    }

    /// Records at time `now` that the texture of a layer is being cleared,
    /// and returns the id of the texture. A layer without a texture is
    /// reported by its number, and nothing changes.
    pub fn clear_texture(&mut self, layer_id: u64, now: u64) -> (result: Result<u64, TextureError>)
        requires
            old(self)@.wf(),
        ensures
            final(self)@ == old(self)@.touch(layer_id, now),
            final(self)@.wf(),
            index_of_layer(old(self)@.active, layer_id) >= old(self)@.active.len() ==> (result matches Err(
                TextureError::TextureNotFound(name),
            ) && is_decimal_u64(layer_id, name@)),
            index_of_layer(old(self)@.active, layer_id) < old(self)@.active.len() ==> result == Ok::<
                u64,
                TextureError,
            >(old(self)@.active[index_of_layer(old(self)@.active, layer_id)].id),
    {
        proof {
            lemma_wf_touch(self@, layer_id, now);
        }
        let i = Self::find_layer(&self.active, layer_id);
        if i >= self.active.len() {
            let name = layer_id.to_string();
            assert(is_decimal_u64(layer_id, name@));
            return Err(TextureError::TextureNotFound(name));
        }
        let mut texture = self.active[i];
        texture.last_used = now;
        self.active.set(i, texture);
        Ok(texture.id)
    }

    /// Releases the texture bound to a layer at time `now`. Returns whether
    /// the layer had one.
    pub fn remove_layer_texture(&mut self, layer_id: u64, now: u64) -> (removed: bool)
        requires
            old(self)@.wf(),
        ensures
            final(self)@ == old(self)@.unbind(layer_id, now),
            final(self)@.wf(),
            removed == (index_of_layer(old(self)@.active, layer_id) < old(self)@.active.len()),
    {
        let i = Self::find_layer(&self.active, layer_id);
        self.release_texture(i, now)
    }

    /// Gives a layer a texture of `width` x `height` pixels at time `now`.
    ///
    /// The texture is acquired while the layer still holds its old one. Only
    /// when that has succeeded the old one is released and the new one bound
    /// to the layer. Where it fails, for unacceptable dimensions or for want
    /// of memory, nothing changes: the layer keeps what it holds.
    pub fn create_layer_texture(&mut self, layer_id: u64, width: u32, height: u32, now: u64) -> (result: Result<
        Acquired,
        TextureError,
    >)
        requires
            old(self)@.wf(),
        ensures
            layer_texture_created(old(self)@, final(self)@, layer_id, width, height, now, result),
            final(self)@.wf(),
    {
        let spec = TextureSpec::layer_texture(width, height);
        let held = Self::find_layer(&self.active, layer_id);
        let count = self.active.len();
        proof {
            lemma_index_of_layer(self@.active, layer_id);
        }
        let acquired = match self.acquire(&spec, now) {
            Ok(acquired) => acquired,
            Err(e) => {
                return Err(e);
            },
        };
        let ghost with_new = self@;
        if held < count {
            proof {
                lemma_wf_release_at(self@, held as int, now);
                self@.active.remove_ensures(held as int);
            }
            self.release_texture(held, now);
        }
        let n = self.active.len() - 1;
        proof {
            assert(self@.active[n as int] == with_new.active.last());
            assert forall|k: int| 0 <= k < self@.active.len() implies (#[trigger] self@.active[k]).layer != Some(
                layer_id,
            ) by {
                if held >= count && k < count {
                    assert(self@.active[k] == old(self)@.active[k]);
                }
            }
            lemma_wf_bind_last(self@, layer_id);
        }
        let ghost unbound = self@;
        let mut texture = self.active[n];
        texture.layer = Some(layer_id);
        self.active.set(n, texture);
        proof {
            assert forall|k: int| 0 <= k < n implies (#[trigger] self@.active[k]).layer != Some(layer_id) by {
                assert(self@.active[k] == unbound.active[k]);
            }
            lemma_index_of_layer_unique(self@.active, layer_id, n as int);
        }
        Ok(acquired)
    }

    /// Gives a layer a texture of a new size; the same as asking for a
    /// texture afresh.
    pub fn resize_texture(&mut self, layer_id: u64, width: u32, height: u32, now: u64) -> (result: Result<
        Acquired,
        TextureError,
    >)
        requires
            old(self)@.wf(),
        ensures
            layer_texture_created(old(self)@, final(self)@, layer_id, width, height, now, result),
            final(self)@.wf(),
    {
        self.create_layer_texture(layer_id, width, height, now)
    }
}

} // verus!
