//! The texture pool: which textures exist, which are in use, how much
//! memory they occupy, and which of them leave when memory runs short.
//!
//! The pool keeps no graphics handles. It decides, by texture id, what is
//! created, reused and destroyed; whoever owns the device carries that out and
//! keeps its handles keyed by the same ids.

use vstd::prelude::*;

verus! {

/// Widest texture the pool accepts.
pub const MAX_TEXTURE_WIDTH: u32 = 3840;

/// Tallest texture the pool accepts.
pub const MAX_TEXTURE_HEIGHT: u32 = 2160;

/// The memory budget of a fresh pool: two gibibytes.
pub const DEFAULT_MEMORY_LIMIT: u64 = 2147483648;

/// Idle time, in milliseconds, after which routine cleanup destroys a texture.
pub const CLEANUP_THRESHOLD_MS: u64 = 300000;

/// Usage flag: the texture can be the source of a copy.
pub const USAGE_COPY_SRC: u32 = 1;

/// Usage flag: the texture can be the destination of a copy.
pub const USAGE_COPY_DST: u32 = 2;

/// Usage flag: the texture can be sampled.
pub const USAGE_TEXTURE_BINDING: u32 = 4;

/// Usage flag: the texture can be rendered into.
pub const USAGE_RENDER_ATTACHMENT: u32 = 16;

/// Usage flags of a layer texture: render target, copy source, copy destination.
pub const USAGE_LAYER: u32 = 19;

/// Pixel layouts the pool knows the size of.
#[derive(Debug, Clone, Copy, PartialEq, Eq, Structural)]
pub enum TextureFormat {
    Rgba8UnormSrgb,
    Bgra8UnormSrgb,
    R8Unorm,
    /// Any other layout; counted as four bytes per pixel.
    Other,
}

/// Why a texture operation was refused.
#[derive(Debug, Clone, PartialEq, Eq)]
pub enum TextureError {
    DeviceNotInitialized,
    TextureCreationFailed(String),
    TextureNotFound(String),
    InvalidDimensions(u32, u32),
    BufferCreationFailed(String),
    BufferReadFailed(String),
    MemoryLimitExceeded(u64),
}

/// Whether `text` is `number` in decimal digits, as the standard formatting
/// writes it.
pub open spec fn is_decimal_u32(number: u32, text: Seq<char>) -> bool {
    exists|s: String| vstd::string::to_string_from_display_ensures::<u32>(&number, s) && s@ == text
}

/// Whether `text` is `number` in decimal digits, as the standard formatting
/// writes it.
pub open spec fn is_decimal_u64(number: u64, text: Seq<char>) -> bool {
    exists|s: String| vstd::string::to_string_from_display_ensures::<u64>(&number, s) && s@ == text
}

impl TextureError {
    /// Whether `text` is the message of the error.
    pub open spec fn is_message(self, text: Seq<char>) -> bool {
        match self {
            TextureError::DeviceNotInitialized => text == "wgpu Device が初期化されていません"@,
            TextureError::TextureCreationFailed(msg) => text == "テクスチャ作成に失敗しました: "@ + msg@,
            TextureError::TextureNotFound(id) => text == "テクスチャが見つかりません: "@ + id@,
            TextureError::InvalidDimensions(width, height) => exists|w: Seq<char>, h: Seq<char>|
                is_decimal_u32(width, w) && is_decimal_u32(height, h) && text == "無効な寸法です: "@ + w + "x"@ + h,
            TextureError::BufferCreationFailed(msg) => text == "バッファ作成に失敗しました: "@ + msg@,
            TextureError::BufferReadFailed(msg) => text == "バッファ読み取りに失敗しました: "@ + msg@,
            TextureError::MemoryLimitExceeded(size) => exists|n: Seq<char>|
                is_decimal_u64(size, n) && text == "メモリ使用量が上限を超えました: "@ + n + " bytes"@,
        }
    }

    /// The message of the error.
    pub fn to_string(&self) -> (message: String)
        ensures
            self.is_message(message@),
    {
        match self {
            TextureError::DeviceNotInitialized => "wgpu Device が初期化されていません".to_string(),
            TextureError::TextureCreationFailed(msg) => "テクスチャ作成に失敗しました: ".to_string().concat(
                msg.as_str(),
            ),
            TextureError::TextureNotFound(id) => "テクスチャが見つかりません: ".to_string().concat(id.as_str()),
            TextureError::InvalidDimensions(width, height) => {
                let w = width.to_string();
                let h = height.to_string();
                assert(is_decimal_u32(*width, w@));
                assert(is_decimal_u32(*height, h@));
                "無効な寸法です: ".to_string().concat(w.as_str()).concat("x").concat(h.as_str())
            },
            TextureError::BufferCreationFailed(msg) => "バッファ作成に失敗しました: ".to_string().concat(
                msg.as_str(),
            ),
            TextureError::BufferReadFailed(msg) => "バッファ読み取りに失敗しました: ".to_string().concat(
                msg.as_str(),
            ),
            TextureError::MemoryLimitExceeded(size) => {
                let n = size.to_string();
                assert(is_decimal_u64(*size, n@));
                "メモリ使用量が上限を超えました: ".to_string().concat(n.as_str()).concat(" bytes")
            },
        }
    }
}

/// Shape and layout of a texture.
#[derive(Debug, Clone, Copy, PartialEq, Eq, Structural)]
pub struct TextureSpec {
    pub width: u32,
    pub height: u32,
    pub format: TextureFormat,
    pub usage: u32,
}

impl TextureSpec {
    /// Bytes that one pixel occupies.
    pub open spec fn bytes_per_pixel(self) -> int {
        match self.format {
            TextureFormat::R8Unorm => 1,
            _ => 4,
        }
    }

    /// Bytes that the whole texture occupies.
    pub open spec fn memory_size_spec(self) -> int {
        self.width * self.height * self.bytes_per_pixel()
    }

    /// Both sides are positive and within the supported maximum.
    pub open spec fn valid_dimensions(self) -> bool {
        0 < self.width <= MAX_TEXTURE_WIDTH && 0 < self.height <= MAX_TEXTURE_HEIGHT
    }

    /// Whether the two have the same width and height; the pool hands out
    /// an idle texture for a request of the same shape.
    pub open spec fn same_shape(self, other: TextureSpec) -> bool {
        self.width == other.width && self.height == other.height
    }

    /// Whether the two have the same width and height.
    pub fn has_same_shape(&self, other: &TextureSpec) -> (same: bool)
        ensures
            same == self.same_shape(*other),
    {
        self.width == other.width && self.height == other.height
    }

    /// The standard texture of a layer: sRGB RGBA, usable as a render target
    /// and on both ends of a copy.
    pub fn layer_texture(width: u32, height: u32) -> (spec: TextureSpec)
        ensures
            spec == (TextureSpec { width, height, format: TextureFormat::Rgba8UnormSrgb, usage: USAGE_LAYER }),
    {
        TextureSpec { width, height, format: TextureFormat::Rgba8UnormSrgb, usage: USAGE_LAYER }
    }

    /// Whether every flag of `flags` is set in the usage of this texture.
    pub fn has_usage(&self, flags: u32) -> (all: bool)
        ensures
            all == (self.usage & flags == flags),
    {
        self.usage & flags == flags
    }

    /// Whether the dimensions are acceptable to the pool.
    pub fn has_valid_dimensions(&self) -> (ok: bool)
        ensures
            ok == self.valid_dimensions(),
    {
        !(self.width == 0 || self.height == 0 || self.width > MAX_TEXTURE_WIDTH || self.height
            > MAX_TEXTURE_HEIGHT)
    }

    /// Memory the texture occupies, in bytes.
    pub fn memory_size(&self) -> (size: u64)
        requires
            self.memory_size_spec() <= u64::MAX,
        ensures
            size == self.memory_size_spec(),
    {
        let bytes_per_pixel: u64 = match self.format {
            TextureFormat::R8Unorm => 1,
            _ => 4,
        };
        proof {
            lemma_size_bounds(self.width as int, self.height as int, bytes_per_pixel as int);
        }
        (self.width as u64) * (self.height as u64) * bytes_per_pixel
    }
}

/// A product of sizes is not negative and grows with the bytes per pixel.
proof fn lemma_size_bounds(w: int, h: int, b: int)
    requires
        0 <= w,
        0 <= h,
        1 <= b,
    ensures
        0 <= w * h <= w * h * b,
{
    assert(0 <= w * h) by (nonlinear_arith)
        requires
            0 <= w,
            0 <= h,
    ;
    assert(w * h <= w * h * b) by (nonlinear_arith)
        requires
            0 <= w * h,
            1 <= b,
    ;
}

/// A texture of valid dimensions occupies between one byte and the size of
/// the largest supported RGBA texture.
pub proof fn lemma_valid_size(spec: TextureSpec)
    requires
        spec.valid_dimensions(),
    ensures
        1 <= spec.memory_size_spec() <= 33177600,
{
    let w = spec.width as int;
    let h = spec.height as int;
    let b = spec.bytes_per_pixel();
    assert(1 <= w * h <= 3840 * 2160) by (nonlinear_arith)
        requires
            1 <= w <= 3840,
            1 <= h <= 2160,
    ;
    assert(w * h <= w * h * b <= w * h * 4) by (nonlinear_arith)
        requires
            1 <= w * h,
            1 <= b <= 4,
    ;
}

/// One texture as the pool keeps it.
#[derive(Debug, Clone, Copy)]
pub struct ManagedTexture {
    /// The pool's name for the texture.
    pub id: u64,
    pub spec: TextureSpec,
    /// Time of the last acquisition or release, in milliseconds.
    pub last_used: u64,
    pub is_in_use: bool,
    /// The layer the texture is bound to, if it is bound.
    pub layer: Option<u64>,
}

impl ManagedTexture {
    /// A fresh, unbound texture that nobody uses yet.
    pub fn new(id: u64, spec: TextureSpec, now: u64) -> (texture: ManagedTexture)
        ensures
            texture == (ManagedTexture { id, spec, last_used: now, is_in_use: false, layer: None }),
    {
        ManagedTexture { id, spec, last_used: now, is_in_use: false, layer: None }
    }

    /// Marks the texture as in use at time `now`.
    pub fn mark_used(&mut self, now: u64)
        ensures
            *final(self) == (ManagedTexture { last_used: now, is_in_use: true, ..*old(self) }),
    {
        self.last_used = now;
        self.is_in_use = true;
    }

    /// Marks the texture as no longer in use.
    pub fn mark_unused(&mut self)
        ensures
            *final(self) == (ManagedTexture { is_in_use: false, ..*old(self) }),
    {
        self.is_in_use = false;
    }

    /// Whether the texture has been idle for more than `older_than`
    /// milliseconds at time `now`.
    pub open spec fn expired(self, now: u64, older_than: u64) -> bool {
        now - self.last_used > older_than
    }
}

/// Bytes occupied by all textures of a list.
pub open spec fn total_size(s: Seq<ManagedTexture>) -> int
    decreases s.len(),
{
    if s.len() == 0 {
        0
    } else {
        total_size(s.drop_last()) + s.last().spec.memory_size_spec()
    }
}

/// Index of the least recently used texture of a list; of several equally
/// old ones, the first. Zero for an empty list.
pub open spec fn lru_index(s: Seq<ManagedTexture>) -> int
    decreases s.len(),
{
    if s.len() <= 1 {
        0
    } else {
        let m = lru_index(s.drop_last());
        if s.last().last_used < s[m].last_used {
            s.len() - 1
        } else {
            m
        }
    }
}

/// Index of the first texture of a list with the width and height of the
/// given shape, or the length of the list if there is none.
pub open spec fn first_match(s: Seq<ManagedTexture>, spec: TextureSpec) -> int
    decreases s.len(),
{
    if s.len() == 0 {
        0
    } else {
        let r = first_match(s.drop_last(), spec);
        if r < s.len() - 1 {
            r
        } else if s.last().spec.same_shape(spec) {
            s.len() - 1
        } else {
            s.len() as int
        }
    }
}

/// Index of the first texture of a list with the given id, or the length of
/// the list if there is none.
pub open spec fn index_of_id(s: Seq<ManagedTexture>, id: u64) -> int
    decreases s.len(),
{
    if s.len() == 0 {
        0
    } else {
        let r = index_of_id(s.drop_last(), id);
        if r < s.len() - 1 {
            r
        } else if s.last().id == id {
            s.len() - 1
        } else {
            s.len() as int
        }
    }
}

/// Index of the first texture of a list bound to the given layer, or the
/// length of the list if there is none.
pub open spec fn index_of_layer(s: Seq<ManagedTexture>, layer: u64) -> int
    decreases s.len(),
{
    if s.len() == 0 {
        0
    } else {
        let r = index_of_layer(s.drop_last(), layer);
        if r < s.len() - 1 {
            r
        } else if s.last().layer == Some(layer) {
            s.len() - 1
        } else {
            s.len() as int
        }
    }
}

/// The idle textures that are left after eviction: while `need` more bytes do
/// not fit under `limit` and an idle texture remains, the least recently used
/// one is destroyed.
pub open spec fn evict(idle: Seq<ManagedTexture>, usage: int, need: int, limit: int) -> Seq<ManagedTexture>
    decreases idle.len(),
{
    let m = lru_index(idle);
    if usage + need <= limit || !(0 <= m < idle.len()) {
        idle
    } else {
        evict(idle.remove(m), usage - idle[m].spec.memory_size_spec(), need, limit)
    }
}

/// The idle textures that stay when every texture idle for more than
/// `older_than` milliseconds is destroyed.
pub open spec fn keep_fresh(idle: Seq<ManagedTexture>, now: u64, older_than: u64) -> Seq<ManagedTexture> {
    idle.filter(|t: ManagedTexture| !t.expired(now, older_than))
}

/// No two textures of the two lists share an id.
pub open spec fn ids_distinct(a: Seq<ManagedTexture>, b: Seq<ManagedTexture>) -> bool {
    &&& forall|i: int, j: int| 0 <= i < j < a.len() ==> a[i].id != a[j].id
    &&& forall|i: int, j: int| 0 <= i < j < b.len() ==> b[i].id != b[j].id
    &&& forall|i: int, j: int| 0 <= i < a.len() && 0 <= j < b.len() ==> a[i].id != b[j].id
}

/// `lru_index` names a texture that is no younger than any other, and
/// strictly older than each one before it.
pub proof fn lemma_lru_index(s: Seq<ManagedTexture>)
    requires
        s.len() > 0,
    ensures
        0 <= lru_index(s) < s.len(),
        forall|j: int| 0 <= j < s.len() ==> s[lru_index(s)].last_used <= #[trigger] s[j].last_used,
        forall|j: int| 0 <= j < lru_index(s) ==> s[lru_index(s)].last_used < #[trigger] s[j].last_used,
    decreases s.len(),
{
    if s.len() > 1 {
        lemma_lru_index(s.drop_last());
        let m = lru_index(s.drop_last());
        assert forall|j: int| 0 <= j < s.len() implies s[lru_index(s)].last_used <= #[trigger] s[j].last_used by {
            if j < s.len() - 1 {
                assert(s.drop_last()[j] == s[j]);
            }
        }
        assert forall|j: int| 0 <= j < lru_index(s) implies s[lru_index(s)].last_used < #[trigger] s[j].last_used by {
            assert(s.drop_last()[j] == s[j]);
        }
    }
}

/// An index with the two properties of `lemma_lru_index` is `lru_index`.
pub proof fn lemma_lru_index_unique(s: Seq<ManagedTexture>, m: int)
    requires
        0 <= m < s.len(),
        forall|j: int| 0 <= j < s.len() ==> s[m].last_used <= #[trigger] s[j].last_used,
        forall|j: int| 0 <= j < m ==> s[m].last_used < #[trigger] s[j].last_used,
    ensures
        lru_index(s) == m,
{
    lemma_lru_index(s);
    let r = lru_index(s);
    if r < m {
        assert(s[m].last_used < s[r].last_used);
        assert(s[r].last_used <= s[m].last_used);
    } else if m < r {
        assert(s[r].last_used < s[m].last_used);
        assert(s[m].last_used <= s[r].last_used);
    }
}

/// `first_match` names the first texture of the given shape.
pub proof fn lemma_first_match(s: Seq<ManagedTexture>, spec: TextureSpec)
    ensures
        0 <= first_match(s, spec) <= s.len(),
        forall|j: int| 0 <= j < first_match(s, spec) ==> !(#[trigger] s[j]).spec.same_shape(spec),
        first_match(s, spec) < s.len() ==> s[first_match(s, spec)].spec.same_shape(spec),
    decreases s.len(),
{
    if s.len() > 0 {
        lemma_first_match(s.drop_last(), spec);
        assert forall|j: int| 0 <= j < first_match(s, spec) implies !(#[trigger] s[j]).spec.same_shape(spec) by {
            if j < s.len() - 1 {
                assert(s.drop_last()[j] == s[j]);
            }
        }
        if first_match(s, spec) < s.len() - 1 {
            assert(s.drop_last()[first_match(s, spec)] == s[first_match(s, spec)]);
        }
    }
}

/// An index with the properties of `lemma_first_match` is `first_match`.
pub proof fn lemma_first_match_unique(s: Seq<ManagedTexture>, spec: TextureSpec, r: int)
    requires
        0 <= r <= s.len(),
        forall|j: int| 0 <= j < r ==> !(#[trigger] s[j]).spec.same_shape(spec),
        r < s.len() ==> s[r].spec.same_shape(spec),
    ensures
        first_match(s, spec) == r,
{
    lemma_first_match(s, spec);
    let f = first_match(s, spec);
    if f < r {
        assert(!s[f].spec.same_shape(spec));
    } else if r < f {
        assert(!s[r].spec.same_shape(spec));
    }
}

/// `index_of_id` names the first texture with the given id.
pub proof fn lemma_index_of_id(s: Seq<ManagedTexture>, id: u64)
    ensures
        0 <= index_of_id(s, id) <= s.len(),
        forall|j: int| 0 <= j < index_of_id(s, id) ==> (#[trigger] s[j]).id != id,
        index_of_id(s, id) < s.len() ==> s[index_of_id(s, id)].id == id,
    decreases s.len(),
{
    if s.len() > 0 {
        lemma_index_of_id(s.drop_last(), id);
        assert forall|j: int| 0 <= j < index_of_id(s, id) implies (#[trigger] s[j]).id != id by {
            if j < s.len() - 1 {
                assert(s.drop_last()[j] == s[j]);
            }
        }
        if index_of_id(s, id) < s.len() - 1 {
            assert(s.drop_last()[index_of_id(s, id)] == s[index_of_id(s, id)]);
        }
    }
}

/// An index with the properties of `lemma_index_of_id` is `index_of_id`.
pub proof fn lemma_index_of_id_unique(s: Seq<ManagedTexture>, id: u64, r: int)
    requires
        0 <= r <= s.len(),
        forall|j: int| 0 <= j < r ==> (#[trigger] s[j]).id != id,
        r < s.len() ==> s[r].id == id,
    ensures
        index_of_id(s, id) == r,
{
    lemma_index_of_id(s, id);
    let f = index_of_id(s, id);
    if f < r {
        assert(s[f].id != id);
    } else if r < f {
        assert(s[r].id != id);
    }
}

/// `index_of_layer` names the first texture bound to the given layer.
pub proof fn lemma_index_of_layer(s: Seq<ManagedTexture>, layer: u64)
    ensures
        0 <= index_of_layer(s, layer) <= s.len(),
        forall|j: int| 0 <= j < index_of_layer(s, layer) ==> (#[trigger] s[j]).layer != Some(layer),
        index_of_layer(s, layer) < s.len() ==> s[index_of_layer(s, layer)].layer == Some(layer),
    decreases s.len(),
{
    if s.len() > 0 {
        lemma_index_of_layer(s.drop_last(), layer);
        assert forall|j: int| 0 <= j < index_of_layer(s, layer) implies (#[trigger] s[j]).layer != Some(layer) by {
            if j < s.len() - 1 {
                assert(s.drop_last()[j] == s[j]);
            }
        }
        if index_of_layer(s, layer) < s.len() - 1 {
            assert(s.drop_last()[index_of_layer(s, layer)] == s[index_of_layer(s, layer)]);
        }
    }
}

/// An index with the properties of `lemma_index_of_layer` is `index_of_layer`.
pub proof fn lemma_index_of_layer_unique(s: Seq<ManagedTexture>, layer: u64, r: int)
    requires
        0 <= r <= s.len(),
        forall|j: int| 0 <= j < r ==> (#[trigger] s[j]).layer != Some(layer),
        r < s.len() ==> s[r].layer == Some(layer),
    ensures
        index_of_layer(s, layer) == r,
{
    lemma_index_of_layer(s, layer);
    let f = index_of_layer(s, layer);
    if f < r {
        assert(s[f].layer != Some(layer));
    } else if r < f {
        assert(s[r].layer != Some(layer));
    }
}

/// Appending a texture adds its size to the total.
pub proof fn lemma_total_push(s: Seq<ManagedTexture>, t: ManagedTexture)
    ensures
        total_size(s.push(t)) == total_size(s) + t.spec.memory_size_spec(),
{
    assert(s.push(t).drop_last() =~= s);
}

/// Removing a texture takes its size off the total.
pub proof fn lemma_total_remove(s: Seq<ManagedTexture>, i: int)
    requires
        0 <= i < s.len(),
    ensures
        total_size(s.remove(i)) == total_size(s) - s[i].spec.memory_size_spec(),
    decreases s.len(),
{
    if i == s.len() - 1 {
        assert(s.remove(i) =~= s.drop_last());
    } else {
        lemma_total_remove(s.drop_last(), i);
        assert(s.remove(i).drop_last() =~= s.drop_last().remove(i));
        assert(s.remove(i).last() == s.last());
    }
}

/// Changing a texture without changing its shape leaves the total as it is.
pub proof fn lemma_total_update(s: Seq<ManagedTexture>, i: int, t: ManagedTexture)
    requires
        0 <= i < s.len(),
        t.spec == s[i].spec,
    ensures
        total_size(s.update(i, t)) == total_size(s),
    decreases s.len(),
{
    if i == s.len() - 1 {
        assert(s.update(i, t).drop_last() =~= s.drop_last());
    } else {
        lemma_total_update(s.drop_last(), i, t);
        assert(s.update(i, t).drop_last() =~= s.drop_last().update(i, t));
    }
}

/// The total of a list of textures of valid dimensions is not negative.
pub proof fn lemma_total_nonnegative(s: Seq<ManagedTexture>)
    requires
        forall|i: int| 0 <= i < s.len() ==> (#[trigger] s[i]).spec.valid_dimensions(),
    ensures
        0 <= total_size(s),
    decreases s.len(),
{
    if s.len() > 0 {
        assert forall|i: int| 0 <= i < s.drop_last().len() implies (#[trigger] s.drop_last()[i]).spec.valid_dimensions() by {
            assert(s.drop_last()[i] == s[i]);
        }
        lemma_total_nonnegative(s.drop_last());
        assert(s.last() == s[s.len() - 1]);
        lemma_valid_size(s.last().spec);
    }
}

/// Destroying a texture that is not kept does not change what is kept.
pub proof fn lemma_keep_fresh_remove(s: Seq<ManagedTexture>, i: int, now: u64, older_than: u64)
    requires
        0 <= i < s.len(),
        s[i].expired(now, older_than),
    ensures
        keep_fresh(s.remove(i), now, older_than) == keep_fresh(s, now, older_than),
{
    let keep = |t: ManagedTexture| !t.expired(now, older_than);
    let a = s.subrange(0, i);
    let b = seq![s[i]];
    let c = s.subrange(i + 1, s.len() as int);
    assert(s =~= (a + b) + c);
    assert(s.remove(i) =~= a + c);
    Seq::filter_distributes_over_add(a, b, keep);
    Seq::filter_distributes_over_add(a + b, c, keep);
    Seq::filter_distributes_over_add(a, c, keep);
    assert(b.filter(keep) =~= Seq::<ManagedTexture>::empty()) by {
        reveal_with_fuel(Seq::filter, 2);
        assert(b.drop_last() =~= Seq::<ManagedTexture>::empty());
    }
    assert(a.filter(keep) + b.filter(keep) =~= a.filter(keep));
}

/// Where nothing has expired, everything is kept.
pub proof fn lemma_keep_fresh_all(s: Seq<ManagedTexture>, now: u64, older_than: u64)
    requires
        forall|i: int| 0 <= i < s.len() ==> !(#[trigger] s[i]).expired(now, older_than),
    ensures
        keep_fresh(s, now, older_than) == s,
    decreases s.len(),
{
    reveal(Seq::filter);
    let keep = |t: ManagedTexture| !t.expired(now, older_than);
    if s.len() > 0 {
        assert forall|i: int| 0 <= i < s.drop_last().len() implies !(#[trigger] s.drop_last()[i]).expired(
            now,
            older_than,
        ) by {
            assert(s.drop_last()[i] == s[i]);
        }
        lemma_keep_fresh_all(s.drop_last(), now, older_than);
        assert(s.last() == s[s.len() - 1]);
        assert(keep(s.last()));
        assert(s.drop_last().push(s.last()) =~= s);
    } else {
        assert(s.filter(keep) =~= s);
    }
}

} // verus!
