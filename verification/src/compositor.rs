//! The compositor: merges a stack of layers, bottom to top, into one frame.
//!
//! Channels are bytes, opacity is fixed-point; every formula of the blending
//! algebra is evaluated exactly, and only the final conversion to a byte
//! rounds, downwards.

use vstd::prelude::*;
use crate::commands::{BlendMode, ONE};
use crate::error::CanvasError;
use crate::layer::{zeroed, Layer};

verus! {

/// The denominator of an effective alpha: 255 times the fixed-point one.
pub const ALPHA_SCALE: u64 = 16711680;

/// Opacity as the compositor counts it: at most one.
pub open spec fn effective_opacity(opacity: int) -> int {
    if opacity > ONE {
        ONE as int
    } else {
        opacity
    }
}

/// The effective source alpha of a pixel, over `ALPHA_SCALE`: the alpha
/// byte of the layer's pixel times the opacity of the layer.
pub open spec fn source_alpha(sa: int, opacity: int) -> int {
    sa * effective_opacity(opacity)
}

/// The blended colour of a channel, over 255 squared.
pub open spec fn blend_numerator(mode: BlendMode, sc: int, dc: int) -> int {
    match mode {
        BlendMode::Normal => sc * 255,
        BlendMode::Multiply => sc * dc,
        BlendMode::Screen => 255 * 255 - (255 - sc) * (255 - dc),
        BlendMode::Overlay => if 2 * dc < 255 {
            2 * sc * dc
        } else {
            255 * 255 - 2 * (255 - sc) * (255 - dc)
        },
    }
}

/// The alpha after "over", over `255 * ALPHA_SCALE`.
pub open spec fn over_alpha_numerator(sa: int, da: int, opacity: int) -> int {
    255 * source_alpha(sa, opacity) + da * (ALPHA_SCALE - source_alpha(sa, opacity))
}

/// The alpha byte of a pixel after a layer's pixel has been laid over it.
/// A source pixel with no effective alpha leaves it as it is.
pub open spec fn composite_alpha(sa: int, da: int, opacity: int) -> int {
    if source_alpha(sa, opacity) == 0 {
        da
    } else {
        over_alpha_numerator(sa, da, opacity) / (ALPHA_SCALE as int)
    }
}

/// A colour byte of a pixel after a layer's pixel has been laid over it:
/// the blended colour weighted with the source alpha, plus the colour below
/// weighted with its own alpha and what the source lets through, divided by
/// the resulting alpha.
pub open spec fn composite_channel(mode: BlendMode, sc: int, dc: int, sa: int, da: int, opacity: int) -> int {
    if source_alpha(sa, opacity) == 0 {
        dc
    } else {
        (blend_numerator(mode, sc, dc) * source_alpha(sa, opacity) + dc * da * (ALPHA_SCALE - source_alpha(
            sa,
            opacity,
        ))) / over_alpha_numerator(sa, da, opacity)
    }
}

/// Byte `k` of a frame after a layer has been laid over it.
pub open spec fn composite_layer_byte(below: Seq<u8>, data: Seq<u8>, opacity: int, mode: BlendMode, k: int) -> u8 {
    let o = (k / 4) * 4;
    if k % 4 == 3 {
        composite_alpha(data[o + 3] as int, below[o + 3] as int, opacity) as u8
    } else {
        composite_channel(mode, data[k] as int, below[k] as int, data[o + 3] as int, below[o + 3] as int, opacity) as u8
    }
}

/// A frame after a layer has been laid over it.
pub open spec fn composite_layer_spec(below: Seq<u8>, data: Seq<u8>, opacity: int, mode: BlendMode) -> Seq<u8> {
    Seq::new(below.len(), |k: int| composite_layer_byte(below, data, opacity, mode, k))
}

/// A transparent frame of `len` bytes.
pub open spec fn clear_frame(len: nat) -> Seq<u8> {
    Seq::new(len, |k: int| 0u8)
}

/// Whether a layer takes part in the composite.
pub open spec fn contributes(layer: Layer) -> bool {
    layer.visible && layer.opacity > 0
}

/// The composite of the first `n` layers of a stack over a transparent
/// frame of `len` bytes, each layer with its own blend mode.
pub open spec fn composite_stack(layers: Seq<Layer>, n: int, len: nat) -> Seq<u8>
    decreases n,
{
    if n <= 0 {
        clear_frame(len)
    } else {
        let below = composite_stack(layers, n - 1, len);
        let layer = layers[n - 1];
        if contributes(layer) {
            composite_layer_spec(below, layer.data@, layer.opacity as int, layer.blend_mode)
        } else {
            below
        }
    }
}

/// The composite of the first `n` layers of a stack, each with the blend
/// mode given beside it.
pub open spec fn composite_stack_with_modes(layers: Seq<(Layer, BlendMode)>, n: int, len: nat) -> Seq<u8>
    decreases n,
{
    if n <= 0 {
        clear_frame(len)
    } else {
        let below = composite_stack_with_modes(layers, n - 1, len);
        let layer = layers[n - 1].0;
        if contributes(layer) {
            composite_layer_spec(below, layer.data@, layer.opacity as int, layers[n - 1].1)
        } else {
            below
        }
    }
}

/// Whether every layer of the stack that takes part in the composite has
/// the given size. Layers that are hidden or without opacity may have any.
pub open spec fn layers_fit(layers: Seq<Layer>, width: u32, height: u32) -> bool {
    forall|i: int|
        0 <= i < layers.len() && contributes(#[trigger] layers[i]) ==> layers[i].width == width && layers[i].height
            == height
}

/// Whether every layer of the list that takes part in the composite has the
/// given size.
pub open spec fn layers_with_modes_fit(layers: Seq<(Layer, BlendMode)>, width: u32, height: u32) -> bool {
    forall|i: int|
        0 <= i < layers.len() && contributes((#[trigger] layers[i]).0) ==> layers[i].0.width == width
            && layers[i].0.height == height
}

/// The layers of a stack that take part in the composite, in their order.
pub open spec fn contributing(layers: Seq<Layer>) -> Seq<Layer> {
    layers.filter(|l: Layer| contributes(l))
}

/// The composite of the first `n` layers does not depend on the layers
/// above them.
pub proof fn lemma_composite_prefix(a: Seq<Layer>, b: Seq<Layer>, n: int, len: nat)
    requires
        n <= a.len(),
        n <= b.len(),
        forall|i: int| 0 <= i < n ==> a[i] == b[i],
    ensures
        composite_stack(a, n, len) == composite_stack(b, n, len),
    decreases n,
{
    if n > 0 {
        lemma_composite_prefix(a, b, n - 1, len);
    }
}

/// Hidden layers and layers without opacity contribute nothing: the
/// composite of a stack is the composite of its contributing layers alone,
/// in the same order.
pub proof fn lemma_only_contributing_layers_count(layers: Seq<Layer>, len: nat)
    ensures
        composite_stack(layers, layers.len() as int, len) == composite_stack(
            contributing(layers),
            contributing(layers).len() as int,
            len,
        ),
    decreases layers.len(),
{
    reveal(Seq::filter);
    if layers.len() > 0 {
        let init = layers.drop_last();
        let last = layers.last();
        let n = layers.len() as int;
        lemma_only_contributing_layers_count(init, len);
        lemma_composite_prefix(layers, init, n - 1, len);
        let kept = contributing(init);
        if contributes(last) {
            assert(contributing(layers) == kept.push(last));
            lemma_composite_prefix(kept.push(last), kept, kept.len() as int, len);
        } else {
            assert(contributing(layers) == kept);
        }
    }
}

/// Bounds of the terms of the "over" operator.
pub proof fn lemma_over_bounds(mode: BlendMode, sc: int, dc: int, sa: int, da: int, opacity: int)
    requires
        0 <= sc <= 255,
        0 <= dc <= 255,
        0 <= sa <= 255,
        0 <= da <= 255,
        0 <= opacity,
    ensures
        0 <= source_alpha(sa, opacity) <= ALPHA_SCALE,
        0 <= blend_numerator(mode, sc, dc) <= 65025,
        255 * source_alpha(sa, opacity) <= over_alpha_numerator(sa, da, opacity) <= 255 * ALPHA_SCALE,
        0 <= blend_numerator(mode, sc, dc) * source_alpha(sa, opacity) <= 65025 * ALPHA_SCALE,
        0 <= dc * da * (ALPHA_SCALE - source_alpha(sa, opacity)) <= 65025 * ALPHA_SCALE,
        blend_numerator(mode, sc, dc) * source_alpha(sa, opacity) + dc * da * (ALPHA_SCALE - source_alpha(
            sa,
            opacity,
        )) <= 255 * over_alpha_numerator(sa, da, opacity),
        0 <= composite_alpha(sa, da, opacity) <= 255,
        0 <= composite_channel(mode, sc, dc, sa, da, opacity) <= 255,
{
    let op = effective_opacity(opacity);
    let a = source_alpha(sa, opacity);
    let m = ALPHA_SCALE as int;
    let bn = blend_numerator(mode, sc, dc);
    assert(0 <= a <= m) by (nonlinear_arith)
        requires
            a == sa * op,
            0 <= sa <= 255,
            0 <= op <= 65536,
            m == 16711680,
    ;
    assert(0 <= sc * dc <= 65025) by (nonlinear_arith)
        requires
            0 <= sc <= 255,
            0 <= dc <= 255,
    ;
    assert(0 <= (255 - sc) * (255 - dc) <= 65025) by (nonlinear_arith)
        requires
            0 <= sc <= 255,
            0 <= dc <= 255,
    ;
    if 2 * dc < 255 {
        assert(2 * sc * dc <= 2 * 255 * 127) by (nonlinear_arith)
            requires
                0 <= sc <= 255,
                0 <= dc <= 127,
        ;
        assert(0 <= 2 * sc * dc) by (nonlinear_arith)
            requires
                0 <= sc,
                0 <= dc,
        ;
    } else {
        assert(0 <= 2 * (255 - sc) * (255 - dc) <= 2 * 255 * 127) by (nonlinear_arith)
            requires
                0 <= sc <= 255,
                128 <= dc <= 255,
        ;
    }
    assert(0 <= bn <= 65025);
    let rest = m - a;
    assert(0 <= da * rest <= 255 * rest) by (nonlinear_arith)
        requires
            0 <= da <= 255,
            0 <= rest,
    ;
    assert(0 <= bn * a <= 65025 * a) by (nonlinear_arith)
        requires
            0 <= bn <= 65025,
            0 <= a,
    ;
    assert(0 <= dc * da * rest <= 255 * (da * rest)) by (nonlinear_arith)
        requires
            0 <= dc <= 255,
            0 <= da * rest,
    ;
    let na = over_alpha_numerator(sa, da, opacity);
    assert(na == 255 * a + da * rest);
    let nc = bn * a + dc * da * rest;
    assert(nc <= 255 * na);
    if a != 0 {
        assert(0 <= na / m <= 255) by (nonlinear_arith)
            requires
                0 <= na <= 255 * m,
                m > 0,
        ;
        assert(0 <= nc / na <= 255) by (nonlinear_arith)
            requires
                0 <= nc <= 255 * na,
                na > 0,
        ;
    }
}

/// A fully opaque pixel of a fully opaque layer in normal mode replaces what
/// lies below it, exactly.
pub proof fn lemma_opaque_normal_replaces(sc: int, dc: int, da: int, opacity: int)
    requires
        0 <= sc <= 255,
        0 <= dc <= 255,
        0 <= da <= 255,
        opacity >= ONE,
    ensures
        composite_alpha(255, da, opacity) == 255,
        composite_channel(BlendMode::Normal, sc, dc, 255, da, opacity) == sc,
{
    let m = ALPHA_SCALE as int;
    assert(source_alpha(255, opacity) == m);
    assert(over_alpha_numerator(255, da, opacity) == 255 * m) by {
        assert(da * (m - m) == 0) by (nonlinear_arith);
    }
    assert(dc * da * (m - m) == 0) by (nonlinear_arith);
    assert((255 * m) / m == 255) by (nonlinear_arith)
        requires
            m == 16711680,
    ;
    assert(((sc * 255) * m) / (255 * m) == sc) by (nonlinear_arith)
        requires
            m == 16711680,
            0 <= sc,
    ;
}

/// Round trip: the composite of a single visible layer of full opacity in
/// normal mode shows every pixel of the layer that is fully opaque exactly as
/// the layer holds it.
pub proof fn lemma_single_opaque_layer(layers: Seq<Layer>, len: nat, k: int)
    requires
        layers.len() == 1,
        layers[0].visible,
        layers[0].opacity >= ONE,
        layers[0].blend_mode == BlendMode::Normal,
        layers[0].data@.len() == len,
        0 <= k < len,
        len % 4 == 0,
        layers[0].data@[(k / 4) * 4 + 3] == 255,
    ensures
        composite_stack(layers, 1, len)[k] == layers[0].data@[k],
{
    let layer = layers[0];
    let below = composite_stack(layers, 0, len);
    assert(below == clear_frame(len));
    let o = (k / 4) * 4;
    assert(0 <= o && o + 3 < len);
    assert(below[k] == 0 && below[o + 3] == 0);
    lemma_opaque_normal_replaces(layer.data@[k] as int, 0, 0, layer.opacity as int);
    assert(composite_stack(layers, 1, len) == composite_layer_spec(
        below,
        layer.data@,
        layer.opacity as int,
        layer.blend_mode,
    ));
}

/// Layers that are hidden or have no opacity change nothing.
pub proof fn lemma_hidden_layer_skipped(layers: Seq<Layer>, n: int, len: nat)
    requires
        0 < n <= layers.len(),
        !layers[n - 1].visible || layers[n - 1].opacity == 0,
    ensures
        composite_stack(layers, n, len) == composite_stack(layers, n - 1, len),
{
}

/// The four bytes of a pixel after a layer's pixel has been laid over it.
pub fn over_pixel(mode: BlendMode, src: (u8, u8, u8, u8), dst: (u8, u8, u8, u8), opacity: u32) -> (out: (
    u8,
    u8,
    u8,
    u8,
))
    ensures
        out.0 == composite_channel(mode, src.0 as int, dst.0 as int, src.3 as int, dst.3 as int, opacity as int),
        out.1 == composite_channel(mode, src.1 as int, dst.1 as int, src.3 as int, dst.3 as int, opacity as int),
        out.2 == composite_channel(mode, src.2 as int, dst.2 as int, src.3 as int, dst.3 as int, opacity as int),
        out.3 == composite_alpha(src.3 as int, dst.3 as int, opacity as int),
{
    let op: u64 = if opacity > ONE { ONE as u64 } else { opacity as u64 };
    proof {
        lemma_over_bounds(mode, src.0 as int, dst.0 as int, src.3 as int, dst.3 as int, opacity as int);
        lemma_over_bounds(mode, src.1 as int, dst.1 as int, src.3 as int, dst.3 as int, opacity as int);
        lemma_over_bounds(mode, src.2 as int, dst.2 as int, src.3 as int, dst.3 as int, opacity as int);
    }
    let a: u64 = src.3 as u64 * op;
    if a == 0 {
        return dst;
    }
    let rest: u64 = ALPHA_SCALE - a;
    let na: u64 = 255 * a + dst.3 as u64 * rest;
    let r = over_channel(mode, src.0, dst.0, src.3, dst.3, opacity, a, na);
    let g = over_channel(mode, src.1, dst.1, src.3, dst.3, opacity, a, na);
    let b = over_channel(mode, src.2, dst.2, src.3, dst.3, opacity, a, na);
    let alpha: u64 = na / ALPHA_SCALE;
    (r, g, b, alpha as u8)
}

/// The blended colour of a channel, over 255 squared.
fn blended(mode: BlendMode, sc: u8, dc: u8) -> (bn: u64)
    ensures
        bn == blend_numerator(mode, sc as int, dc as int),
        bn <= 65025,
{
    let s: u64 = sc as u64;
    let d: u64 = dc as u64;
    proof {
        lemma_over_bounds(mode, sc as int, dc as int, 0, 0, 0);
        assert(0 <= (255 - s) * (255 - d) <= 65025) by (nonlinear_arith)
            requires
                0 <= s <= 255,
                0 <= d <= 255,
        ;
        assert(0 <= s * d <= 65025) by (nonlinear_arith)
            requires
                0 <= s <= 255,
                0 <= d <= 255,
        ;
    }
    match mode {
        BlendMode::Normal => s * 255,
        BlendMode::Multiply => s * d,
        BlendMode::Screen => 65025 - (255 - s) * (255 - d),
        BlendMode::Overlay => if 2 * d < 255 {
            2 * s * d
        } else {
            65025 - 2 * (255 - s) * (255 - d)
        },
    }
}

/// A colour byte after a layer's pixel has been laid over it, given the
/// effective alpha of the source and the numerator of the resulting alpha.
fn over_channel(mode: BlendMode, sc: u8, dc: u8, sa: u8, da: u8, opacity: u32, a: u64, na: u64) -> (out: u8)
    requires
        a == source_alpha(sa as int, opacity as int),
        a != 0,
        na == over_alpha_numerator(sa as int, da as int, opacity as int),
    ensures
        out == composite_channel(mode, sc as int, dc as int, sa as int, da as int, opacity as int),
{
    proof {
        lemma_over_bounds(mode, sc as int, dc as int, sa as int, da as int, opacity as int);
    }
    let bn: u64 = blended(mode, sc, dc);
    let rest: u64 = ALPHA_SCALE - a;
    assert(dc * da <= 65025) by (nonlinear_arith)
        requires
            0 <= dc <= 255,
            0 <= da <= 255,
    ;
    let below: u64 = dc as u64 * da as u64;
    assert(below * rest == dc * da * (ALPHA_SCALE - a)) by (nonlinear_arith)
        requires
            below == dc * da,
            rest == ALPHA_SCALE - a,
    ;
    let nc: u64 = bn * a + below * rest;
    (nc / na) as u8
}

/// The compositor; its operations are associated functions.
pub struct Compositor;

impl Compositor {
    /// Lays one layer over a frame, pixel by pixel, with the given blend mode.
    pub fn composite_layer_with_blend_mode(layer: &Layer, blend_mode: BlendMode, output: &mut Vec<u8>)
        requires
            old(output)@.len() == layer.data@.len(),
            old(output)@.len() % 4 == 0,
        ensures
            final(output)@ == composite_layer_spec(old(output)@, layer.data@, layer.opacity as int, blend_mode),
    {
        let n: usize = output.len();
        let ghost below = output@;
        let mut o: usize = 0;
        while o < n
            invariant
                o <= n,
                o % 4 == 0,
                n % 4 == 0,
                n == output@.len(),
                n == below.len(),
                n == layer.data@.len(),
                forall|k: int|
                    0 <= k < o ==> output@[k] == composite_layer_byte(
                        below,
                        layer.data@,
                        layer.opacity as int,
                        blend_mode,
                        k,
                    ),
                forall|k: int| o <= k < n ==> output@[k] == below[k],
            decreases n - o,
        {
            let src = (layer.data[o], layer.data[o + 1], layer.data[o + 2], layer.data[o + 3]);
            let dst = (output[o], output[o + 1], output[o + 2], output[o + 3]);
            let out = over_pixel(blend_mode, src, dst, layer.opacity);
            output.set(o, out.0);
            output.set(o + 1, out.1);
            output.set(o + 2, out.2);
            output.set(o + 3, out.3);
            proof {
                assert forall|k: int| 0 <= k < o + 4 implies output@[k] == composite_layer_byte(
                    below,
                    layer.data@,
                    layer.opacity as int,
                    blend_mode,
                    k,
                ) by {
                    if k >= o {
                        assert((k / 4) * 4 == o);
                    }
                }
            }
            o = o + 4;
        }
        assert(output@ =~= composite_layer_spec(below, layer.data@, layer.opacity as int, blend_mode));
    }

    /// Merges the stack of layers, bottom first, into `output`, each layer
    /// with its own blend mode.
    ///
    /// Hidden layers and layers without opacity are passed over entirely,
    /// whatever their size. The output must hold four bytes per pixel of the
    /// canvas and every other layer must have the size of the canvas;
    /// otherwise nothing is written. The output is cleared first.
    pub fn composite_layers(layers: &Vec<Layer>, output: &mut Vec<u8>, width: u32, height: u32) -> (result: Result<
        (),
        CanvasError,
    >)
        requires
            forall|i: int| 0 <= i < layers@.len() && contributes(#[trigger] layers@[i]) ==> layers@[i].wf(),
        ensures
            result is Ok <==> old(output)@.len() == width * height * 4 && layers_fit(layers@, width, height),
            result is Err ==> result == Err::<(), CanvasError>(CanvasError::SizeMismatch),
            result is Err ==> final(output)@ == old(output)@,
            result is Ok ==> final(output)@ == composite_stack(layers@, layers@.len() as int, old(output)@.len()),
    {
        if !size_matches(output.len(), width, height) {
            return Err(CanvasError::SizeMismatch);
        }
        let mut i: usize = 0;
        while i < layers.len()
            invariant
                i <= layers@.len(),
                forall|j: int|
                    0 <= j < i && contributes(#[trigger] layers@[j]) ==> layers@[j].width == width
                        && layers@[j].height == height,
            decreases layers@.len() - i,
        {
            let layer = &layers[i];
            if layer.visible && layer.opacity > 0 && (layer.width != width || layer.height != height) {
                return Err(CanvasError::SizeMismatch);
            }
            i = i + 1;
        }
        let n: usize = output.len();
        *output = zeroed(n);
        assert(output@ =~= clear_frame(n as nat));
        let mut i: usize = 0;
        while i < layers.len()
            invariant
                i <= layers@.len(),
                n == output@.len(),
                n == width * height * 4,
                layers_fit(layers@, width, height),
                forall|j: int| 0 <= j < layers@.len() && contributes(#[trigger] layers@[j]) ==> layers@[j].wf(),
                output@ == composite_stack(layers@, i as int, n as nat),
            decreases layers@.len() - i,
        {
            let layer = &layers[i];
            if layer.visible && layer.opacity > 0 {
                assert(n % 4 == 0);
                Self::composite_layer_with_blend_mode(layer, layer.blend_mode, output);
            }
            i = i + 1;
        }
        Ok(())
    }

    /// Merges a list of layers, bottom first, into `output`, each layer with
    /// the blend mode given beside it; otherwise as `composite_layers`.
    pub fn composite_layers_with_blend_modes(
        layers: &Vec<(Layer, BlendMode)>,
        output: &mut Vec<u8>,
        width: u32,
        height: u32,
    ) -> (result: Result<(), CanvasError>)
        requires
            forall|i: int| 0 <= i < layers@.len() && contributes((#[trigger] layers@[i]).0) ==> layers@[i].0.wf(),
        ensures
            result is Ok <==> old(output)@.len() == width * height * 4 && layers_with_modes_fit(
                layers@,
                width,
                height,
            ),
            result is Err ==> result == Err::<(), CanvasError>(CanvasError::SizeMismatch),
            result is Err ==> final(output)@ == old(output)@,
            result is Ok ==> final(output)@ == composite_stack_with_modes(
                layers@,
                layers@.len() as int,
                old(output)@.len(),
            ),
    {
        if !size_matches(output.len(), width, height) {
            return Err(CanvasError::SizeMismatch);
        }
        let mut i: usize = 0;
        while i < layers.len()
            invariant
                i <= layers@.len(),
                forall|j: int|
                    0 <= j < i && contributes((#[trigger] layers@[j]).0) ==> layers@[j].0.width == width
                        && layers@[j].0.height == height,
            decreases layers@.len() - i,
        {
            let layer = &layers[i].0;
            if layer.visible && layer.opacity > 0 && (layer.width != width || layer.height != height) {
                return Err(CanvasError::SizeMismatch);
            }
            i = i + 1;
        }
        let n: usize = output.len();
        *output = zeroed(n);
        assert(output@ =~= clear_frame(n as nat));
        let mut i: usize = 0;
        while i < layers.len()
            invariant
                i <= layers@.len(),
                n == output@.len(),
                n == width * height * 4,
                layers_with_modes_fit(layers@, width, height),
                forall|j: int|
                    0 <= j < layers@.len() && contributes((#[trigger] layers@[j]).0) ==> layers@[j].0.wf(),
                output@ == composite_stack_with_modes(layers@, i as int, n as nat),
            decreases layers@.len() - i,
        {
            let layer = &layers[i].0;
            if layer.visible && layer.opacity > 0 {
                assert(n % 4 == 0);
                Self::composite_layer_with_blend_mode(layer, layers[i].1, output);
            }
            i = i + 1;
        }
        Ok(())
    }

    /// The composite of a stack of layers as a new frame of `width` x
    /// `height` pixels.
    pub fn composite(layers: &Vec<Layer>, width: u32, height: u32) -> (result: Result<Vec<u8>, CanvasError>)
        requires
            forall|i: int| 0 <= i < layers@.len() && contributes(#[trigger] layers@[i]) ==> layers@[i].wf(),
        ensures
            result is Ok <==> width * height * 4 <= usize::MAX && layers_fit(layers@, width, height),
            result is Err ==> result == Err::<Vec<u8>, CanvasError>(CanvasError::SizeMismatch),
            result matches Ok(frame) ==> frame@ == composite_stack(
                layers@,
                layers@.len() as int,
                (width * height * 4) as nat,
            ),
    {
        let len = match frame_len(width, height) {
            Some(len) => len,
            None => {
                return Err(CanvasError::SizeMismatch);
            },
        };
        let mut frame = zeroed(len);
        match Self::composite_layers(layers, &mut frame, width, height) {
            Ok(()) => Ok(frame),
            Err(e) => Err(e),
        }
    }
}

/// The number of bytes of a frame, if it can be held.
pub fn frame_len(width: u32, height: u32) -> (len: Option<usize>)
    ensures
        len is Some <==> width * height * 4 <= usize::MAX,
        len matches Some(n) ==> n == width * height * 4,
{
    assert(0 <= width * height <= 0xffff_ffff * 0xffff_ffff) by (nonlinear_arith)
        requires
            0 <= width <= 0xffff_ffff,
            0 <= height <= 0xffff_ffff,
    ;
    let pixels: u64 = width as u64 * height as u64;
    if pixels > (usize::MAX / 4) as u64 {
        None
    } else {
        Some((pixels * 4) as usize)
    }
}

/// Whether a buffer of `len` bytes holds exactly one frame.
pub fn size_matches(len: usize, width: u32, height: u32) -> (ok: bool)
    ensures
        ok == (len == width * height * 4),
{
    match frame_len(width, height) {
        Some(n) => n == len,
        None => false,
    }
}

} // verus!
