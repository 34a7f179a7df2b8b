//! The commands of a canvas: strokes on the active layer, layer management,
//! and the frame that has to be shown afterwards.

use vstd::prelude::*;
use crate::brush::{draw_brush_point, draw_brush_stroke, stamped, stroked};
use crate::canvas_state::CanvasState;
use crate::commands::{BrushSettings, DrawCommand};
use crate::compositor::{composite_stack, Compositor};
use crate::error::CanvasError;
use crate::layer::Layer;
use crate::stroke::{is_line, StrokeState};

verus! {

/// The column of the last sample of a gesture.
pub open spec fn last_x(stroke: StrokeState) -> int {
    match stroke.last_point {
        Some(p) => p.0 as int,
        None => 0,
    }
}

/// The row of the last sample of a gesture.
pub open spec fn last_y(stroke: StrokeState) -> int {
    match stroke.last_point {
        Some(p) => p.1 as int,
        None => 0,
    }
}

/// The pressure of the last sample of a gesture, or `fallback` if it has
/// none.
pub open spec fn previous_pressure(stroke: StrokeState, fallback: u32) -> int {
    if stroke.current_path@.len() > 0 {
        stroke.current_path@.last().2 as int
    } else {
        fallback as int
    }
}

/// Whether two layers agree in everything but their pixels.
pub open spec fn same_but_pixels(a: Layer, b: Layer) -> bool {
    &&& a.id == b.id
    &&& a.width == b.width
    &&& a.height == b.height
    &&& a.opacity == b.opacity
    &&& a.visible == b.visible
    &&& a.name == b.name
    &&& a.blend_mode == b.blend_mode
    &&& a.texture_id == b.texture_id
    &&& a.data@.len() == b.data@.len()
}

/// Whether `after` is `before` with new pixels `pixels` on its active layer,
/// marked as out of date, and nothing else changed.
pub open spec fn repainted(before: CanvasState, after: CanvasState, pixels: Seq<u8>) -> bool {
    &&& after.id == before.id
    &&& after.width == before.width
    &&& after.height == before.height
    &&& after.active_layer == before.active_layer
    &&& after.texture_id == before.texture_id
    &&& after.dirty
    &&& after.layers@.len() == before.layers@.len()
    &&& forall|i: int|
        0 <= i < before.layers@.len() && i != before.active_layer ==> after.layers@[i] == before.layers@[i]
    &&& same_but_pixels(before.layers@[before.active_layer as int], after.layers@[before.active_layer as int])
    &&& after.layers@[before.active_layer as int].data@ == pixels
}

/// Begins a stroke: the gesture starts at the sample, and the brush leaves
/// its first stamp on the active layer.
pub fn begin_stroke(
    canvas: &mut CanvasState,
    stroke: &mut StrokeState,
    brush: &BrushSettings,
    x: i32,
    y: i32,
    pressure: u32,
)
    requires
        old(canvas).wf(),
    ensures
        final(canvas).wf(),
        final(stroke).is_drawing,
        final(stroke).last_point == Some((x, y)),
        final(stroke).current_path@ == seq![(x, y, pressure)],
        repainted(
            *old(canvas),
            *final(canvas),
            stamped(
                old(canvas).layers@[old(canvas).active_layer as int].data@,
                old(canvas).width as int,
                x as int,
                y as int,
                pressure as int,
                *brush,
            ),
        ),
{
    stroke.begin(x, y, pressure);
    let a = canvas.active_layer;
    let width = canvas.width;
    let height = canvas.height;
    draw_brush_point(&mut canvas.layers[a].data, width, height, x, y, pressure, brush);
    canvas.dirty = true;
}

/// Continues a stroke: the brush draws the line from the last sample to
/// this one, with the pressure going from the last one to this one, and the
/// sample joins the gesture. Without a gesture under way nothing happens.
pub fn continue_stroke(
    canvas: &mut CanvasState,
    stroke: &mut StrokeState,
    brush: &BrushSettings,
    x: i32,
    y: i32,
    pressure: u32,
)
    requires
        old(canvas).wf(),
    ensures
        final(canvas).wf(),
        !old(stroke).is_drawing ==> *final(canvas) == *old(canvas) && *final(stroke) == *old(stroke),
        old(stroke).is_drawing ==> final(stroke).is_drawing && final(stroke).last_point == Some((x, y)) && final(stroke).current_path@ == old(stroke).current_path@.push((x, y, pressure)),
        old(stroke).is_drawing && old(stroke).last_point is None ==> *final(canvas) == *old(canvas),
        old(stroke).is_drawing && old(stroke).last_point is Some ==> exists|points: Seq<(i32, i32)>|
            is_line(
                points,
                last_x(*old(stroke)),
                last_y(*old(stroke)),
                x as int,
                y as int,
            ) && repainted(
                *old(canvas),
                *final(canvas),
                #[trigger] stroked(
                    old(canvas).layers@[old(canvas).active_layer as int].data@,
                    old(canvas).width as int,
                    points,
                    previous_pressure(*old(stroke), pressure),
                    pressure as int,
                    *brush,
                    points.len() as int,
                ),
            ),
{
    if !stroke.is_drawing {
        return ;
    }
    match stroke.last_point {
        Some((last_x, last_y)) => {
            let last_pressure = stroke.last_pressure(pressure);
            let a = canvas.active_layer;
            let width = canvas.width;
            let height = canvas.height;
            draw_brush_stroke(
                &mut canvas.layers[a].data,
                width,
                height,
                last_x,
                last_y,
                x,
                y,
                last_pressure,
                pressure,
                brush,
            );
            canvas.dirty = true;
            proof {
                let before = old(canvas).layers@[a as int].data@;
                let points = choose|points: Seq<(i32, i32)>|
                    is_line(points, last_x as int, last_y as int, x as int, y as int) && canvas.layers@[a as int].data@
                        == #[trigger] stroked(
                        before,
                        width as int,
                        points,
                        last_pressure as int,
                        pressure as int,
                        *brush,
                        points.len() as int,
                    );
                assert(repainted(
                    *old(canvas),
                    *canvas,
                    stroked(
                        before,
                        old(canvas).width as int,
                        points,
                        previous_pressure(*old(stroke), pressure),
                        pressure as int,
                        *brush,
                        points.len() as int,
                    ),
                ));
            }
        },
        None => {},
    }
    stroke.add_point(x, y, pressure);
}

/// Ends a stroke. Pixels that were painted stay.
pub fn end_stroke(stroke: &mut StrokeState)
    ensures
        !final(stroke).is_drawing,
        final(stroke).last_point is None,
        final(stroke).current_path@ == old(stroke).current_path@,
{
    stroke.end();
}

/// Makes the active layer transparent.
pub fn clear_active_layer(canvas: &mut CanvasState)
    requires
        old(canvas).wf(),
    ensures
        final(canvas).wf(),
        repainted(
            *old(canvas),
            *final(canvas),
            Seq::new(old(canvas).layers@[old(canvas).active_layer as int].data@.len(), |k: int| 0u8),
        ),
{
    let a = canvas.active_layer;
    canvas.layers[a].clear();
    canvas.dirty = true;
    assert(canvas.layers@[a as int].data@ =~= Seq::new(
        old(canvas).layers@[old(canvas).active_layer as int].data@.len(),
        |k: int| 0u8,
    ));
}

/// The frame that shows a canvas when it is out of date: if the canvas is
/// marked so, the mark is taken off, and if the canvas has a texture the
/// composite of its layers is returned for it.
pub fn refresh(canvas: &mut CanvasState) -> (frame: Option<Vec<u8>>)
    requires
        old(canvas).wf(),
    ensures
        final(canvas).wf(),
        *final(canvas) == (CanvasState { dirty: false, ..*old(canvas) }),
        frame is Some <==> old(canvas).dirty && old(canvas).texture_id is Some,
        frame matches Some(f) ==> f@ == composite_stack(
            old(canvas).layers@,
            old(canvas).layers@.len() as int,
            (old(canvas).width * old(canvas).height * 4) as nat,
        ),
{
    if !canvas.dirty {
        return None;
    }
    canvas.dirty = false;
    if canvas.texture_id.is_none() {
        return None;
    }
    let n: usize = canvas.layers[0].data.len();
    assert(n == canvas.width * canvas.height * 4);
    match Compositor::composite(&canvas.layers, canvas.width, canvas.height) {
        Ok(frame) => Some(frame),
        Err(_) => None,
    }
}

/// Carries out one command on a canvas.
///
/// A command that names a layer that does not exist, or that would delete
/// the only layer, is refused and changes nothing. After any other command
/// the canvas is refreshed, and the frame to show is returned if there is
/// one.
pub fn process_command(
    canvas: &mut CanvasState,
    stroke: &mut StrokeState,
    brush: &mut BrushSettings,
    command: DrawCommand,
) -> (result: Result<Option<Vec<u8>>, CanvasError>)
    requires
        old(canvas).wf(),
    ensures
        final(canvas).wf(),
        result is Ok ==> !final(canvas).dirty,
        result is Err <==> match command {
            DrawCommand::SetActiveLayer(index) => index >= old(canvas).layers@.len(),
            DrawCommand::DeleteLayer(index) => old(canvas).layers@.len() <= 1 || index >= old(canvas).layers@.len(),
            _ => false,
        },
        result is Err ==> *final(canvas) == *old(canvas) && *final(stroke) == *old(stroke) && *final(brush) == *old(brush),
        match command {
            DrawCommand::DeleteLayer(index) => old(canvas).layers@.len() <= 1 ==> result == Err::<
                Option<Vec<u8>>,
                CanvasError,
            >(CanvasError::LastLayerProtected),
            _ => true,
        },
        match command {
            DrawCommand::DeleteLayer(index) => old(canvas).layers@.len() > 1 && index >= old(canvas).layers@.len()
                ==> result == Err::<Option<Vec<u8>>, CanvasError>(CanvasError::NotFound),
            DrawCommand::SetActiveLayer(index) => index >= old(canvas).layers@.len() ==> result == Err::<
                Option<Vec<u8>>,
                CanvasError,
            >(CanvasError::NotFound),
            _ => true,
        },
        match command {
            DrawCommand::SetBrush(settings) => *final(brush) == settings,
            _ => *final(brush) == *old(brush),
        },
        match command {
            DrawCommand::BeginStroke { x, y, pressure } => final(stroke).is_drawing && final(stroke).last_point
                == Some((x, y)) && final(stroke).current_path@ == seq![(x, y, pressure)],
            DrawCommand::ContinueStroke { x, y, pressure } => if old(stroke).is_drawing {
                final(stroke).is_drawing && final(stroke).last_point == Some((x, y)) && final(stroke).current_path@
                    == old(stroke).current_path@.push((x, y, pressure))
            } else {
                *final(stroke) == *old(stroke)
            },
            DrawCommand::EndStroke => !final(stroke).is_drawing && final(stroke).last_point is None && final(stroke).current_path@ == old(stroke).current_path@,
            _ => *final(stroke) == *old(stroke),
        },
        result is Ok ==> match command {
            DrawCommand::BeginStroke { x, y, pressure } => repainted(
                *old(canvas),
                (CanvasState { dirty: true, ..*final(canvas) }),
                stamped(
                    old(canvas).layers@[old(canvas).active_layer as int].data@,
                    old(canvas).width as int,
                    x as int,
                    y as int,
                    pressure as int,
                    *old(brush),
                ),
            ),
            DrawCommand::ContinueStroke { x, y, pressure } => if old(stroke).is_drawing && old(stroke).last_point
                is Some {
                exists|points: Seq<(i32, i32)>|
                    is_line(
                        points,
                        last_x(*old(stroke)),
                        last_y(*old(stroke)),
                        x as int,
                        y as int,
                    ) && repainted(
                        *old(canvas),
                        (CanvasState { dirty: true, ..*final(canvas) }),
                        #[trigger] stroked(
                            old(canvas).layers@[old(canvas).active_layer as int].data@,
                            old(canvas).width as int,
                            points,
                            previous_pressure(*old(stroke), pressure),
                            pressure as int,
                            *old(brush),
                            points.len() as int,
                        ),
                    )
            } else {
                *final(canvas) == (CanvasState { dirty: false, ..*old(canvas) })
            },
            DrawCommand::Clear => repainted(
                *old(canvas),
                (CanvasState { dirty: true, ..*final(canvas) }),
                Seq::new(old(canvas).layers@[old(canvas).active_layer as int].data@.len(), |k: int| 0u8),
            ),
            DrawCommand::SetActiveLayer(index) => *final(canvas) == (CanvasState {
                active_layer: index,
                dirty: false,
                ..*old(canvas)
            }),
            DrawCommand::CreateLayer => final(canvas).layers@.len() == old(canvas).layers@.len() + 1 && (forall|
                i: int,
            |
                0 <= i < old(canvas).layers@.len() ==> final(canvas).layers@[i] == old(canvas).layers@[i]) && (
            forall|k: int|
                0 <= k < final(canvas).layers@.last().data@.len() ==> final(canvas).layers@.last().data@[k] == 0)
                && final(canvas).active_layer == old(canvas).active_layer,
            DrawCommand::DeleteLayer(index) => final(canvas).layers@ == old(canvas).layers@.remove(index as int)
                && final(canvas).active_layer == (if old(canvas).active_layer >= old(canvas).layers@.len() - 1 {
                (old(canvas).layers@.len() - 2) as usize
            } else {
                old(canvas).active_layer
            }),
            _ => *final(canvas) == (CanvasState { dirty: false, ..*old(canvas) }),
        },
        result matches Ok(frame) ==> (frame is Some <==> final(canvas).texture_id is Some && (old(canvas).dirty
            || !(command is EndStroke || command is SetBrush || command is SetActiveLayer || (
        command is ContinueStroke && !(old(stroke).is_drawing && old(stroke).last_point is Some))))),
        result matches Ok(Some(f)) ==> f@ == composite_stack(
            final(canvas).layers@,
            final(canvas).layers@.len() as int,
            (final(canvas).width * final(canvas).height * 4) as nat,
        ),
{
    match command {
        DrawCommand::BeginStroke { x, y, pressure } => {
            begin_stroke(canvas, stroke, brush, x, y, pressure);
        },
        DrawCommand::ContinueStroke { x, y, pressure } => {
            continue_stroke(canvas, stroke, brush, x, y, pressure);
        },
        DrawCommand::EndStroke => {
            end_stroke(stroke);
        },
        DrawCommand::Clear => {
            clear_active_layer(canvas);
        },
        DrawCommand::SetBrush(settings) => {
            *brush = settings;
        },
        DrawCommand::SetActiveLayer(index) => {
            match canvas.set_active_layer(index) {
                Ok(()) => {},
                Err(e) => {
                    return Err(e);
                },
            }
        },
        DrawCommand::CreateLayer => {
            canvas.add_layer();
        },
        DrawCommand::DeleteLayer(index) => {
            match canvas.delete_layer(index) {
                Ok(()) => {},
                Err(e) => {
                    return Err(e);
                },
            }
        },
    }
    Ok(refresh(canvas))
}

} // verus!
