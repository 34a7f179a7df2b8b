use kinegraph::commands::{BlendMode, ONE};
use kinegraph::compositor::{frame_len, over_pixel, size_matches, Compositor};
use kinegraph::error::CanvasError;
use kinegraph::layer::Layer;

fn solid(width: u32, height: u32, pixel: [u8; 4]) -> Layer {
    let mut layer = Layer::new(width, height);
    for y in 0..height {
        for x in 0..width {
            layer.set_pixel(x, y, pixel);
        }
    }
    layer
}

fn repeated(pixel: [u8; 4], count: usize) -> Vec<u8> {
    let mut v = Vec::new();
    for _ in 0..count {
        v.extend_from_slice(&pixel);
    }
    v
}

#[test]
fn no_layers_give_a_transparent_frame() {
    let layers: Vec<Layer> = Vec::new();
    assert_eq!(Compositor::composite(&layers, 3, 2), Ok(vec![0; 24]));
}

#[test]
fn a_single_opaque_layer_is_reproduced_exactly() {
    for pixel in [[255, 0, 0, 255], [1, 2, 3, 255], [254, 127, 128, 255], [0, 0, 0, 255], [255, 255, 255, 255]] {
        let layers = vec![solid(4, 3, pixel)];
        let frame = Compositor::composite(&layers, 4, 3).unwrap();
        assert_eq!(frame, repeated(pixel, 12));
    }
}

#[test]
fn every_colour_survives_an_opaque_normal_layer() {
    let mut layer = Layer::new(256, 1);
    for v in 0..256u32 {
        layer.set_pixel(v, 0, [v as u8, 255 - v as u8, (v * 7 % 256) as u8, 255]);
    }
    let expected = layer.data.clone();
    let frame = Compositor::composite(&vec![layer], 256, 1).unwrap();
    assert_eq!(frame, expected);
}

#[test]
fn half_opaque_white_over_blue_is_light_blue() {
    let bottom = solid(2, 2, [0, 0, 255, 255]);
    let mut top = solid(2, 2, [255, 255, 255, 255]);
    top.opacity = ONE / 2;
    let frame = Compositor::composite(&vec![bottom, top], 2, 2).unwrap();
    assert_eq!(frame, repeated([127, 127, 255, 255], 4));
}

#[test]
fn layers_are_visited_bottom_to_top() {
    let red = solid(1, 1, [255, 0, 0, 255]);
    let green = solid(1, 1, [0, 255, 0, 255]);
    assert_eq!(Compositor::composite(&vec![red, green], 1, 1).unwrap(), vec![0, 255, 0, 255]);
    let red = solid(1, 1, [255, 0, 0, 255]);
    let green = solid(1, 1, [0, 255, 0, 255]);
    assert_eq!(Compositor::composite(&vec![green, red], 1, 1).unwrap(), vec![255, 0, 0, 255]);
}

#[test]
fn hidden_layers_and_layers_without_opacity_are_skipped() {
    let bottom = solid(2, 1, [10, 20, 30, 255]);
    let mut hidden = solid(2, 1, [255, 255, 255, 255]);
    hidden.visible = false;
    let mut faded = solid(2, 1, [200, 200, 200, 255]);
    faded.opacity = 0;
    let frame = Compositor::composite(&vec![bottom, hidden, faded], 2, 1).unwrap();
    assert_eq!(frame, repeated([10, 20, 30, 255], 2));
}

#[test]
fn transparent_pixels_leave_what_is_below() {
    let bottom = solid(2, 1, [10, 20, 30, 40]);
    let mut top = solid(2, 1, [99, 99, 99, 0]);
    top.set_pixel(1, 0, [200, 100, 50, 255]);
    let frame = Compositor::composite(&vec![bottom, top], 2, 1).unwrap();
    assert_eq!(frame, vec![10, 20, 30, 40, 200, 100, 50, 255]);
}

#[test]
fn opacity_above_one_counts_as_one() {
    let mut layer = solid(1, 1, [9, 8, 7, 255]);
    layer.opacity = u32::MAX;
    assert_eq!(Compositor::composite(&vec![layer], 1, 1).unwrap(), vec![9, 8, 7, 255]);
}

#[test]
fn blending_over_an_opaque_pixel() {
    let src = (200, 100, 50, 255);
    let dst = (100, 200, 30, 255);
    assert_eq!(over_pixel(BlendMode::Normal, src, dst, ONE), (200, 100, 50, 255));
    assert_eq!(over_pixel(BlendMode::Multiply, src, dst, ONE), (78, 78, 5, 255));
    assert_eq!(over_pixel(BlendMode::Screen, src, dst, ONE), (221, 221, 74, 255));
    assert_eq!(over_pixel(BlendMode::Overlay, src, dst, ONE), (156, 188, 11, 255));
}

#[test]
fn blending_with_partial_alpha_and_opacity() {
    let src = (200, 100, 50, 128);
    let dst = (100, 200, 30, 200);
    let half = ONE / 2;
    assert_eq!(over_pixel(BlendMode::Normal, src, dst, half), (129, 170, 35, 213));
    assert_eq!(over_pixel(BlendMode::Multiply, src, dst, half), (93, 163, 22, 213));
    assert_eq!(over_pixel(BlendMode::Screen, src, dst, half), (136, 206, 43, 213));
    assert_eq!(over_pixel(BlendMode::Overlay, src, dst, half), (117, 196, 24, 213));
}

#[test]
fn blending_over_nothing() {
    let src = (200, 100, 50, 128);
    let nothing = (0, 0, 0, 0);
    let half = ONE / 2;
    assert_eq!(over_pixel(BlendMode::Normal, src, nothing, half), (200, 100, 50, 64));
    assert_eq!(over_pixel(BlendMode::Multiply, src, nothing, half), (0, 0, 0, 64));
    assert_eq!(over_pixel(BlendMode::Screen, src, nothing, half), (200, 100, 50, 64));
    assert_eq!(over_pixel(BlendMode::Overlay, src, nothing, half), (0, 0, 0, 64));
    assert_eq!(over_pixel(BlendMode::Normal, (10, 20, 30, 0), (1, 2, 3, 4), ONE), (1, 2, 3, 4));
    assert_eq!(over_pixel(BlendMode::Normal, (10, 20, 30, 255), (1, 2, 3, 4), 0), (1, 2, 3, 4));
}

#[test]
fn each_layer_is_blended_with_its_own_mode() {
    let bottom = solid(1, 1, [100, 200, 30, 255]);
    let mut top = solid(1, 1, [200, 100, 50, 255]);
    top.blend_mode = BlendMode::Multiply;
    assert_eq!(Compositor::composite(&vec![bottom, top], 1, 1).unwrap(), vec![78, 78, 5, 255]);
}

#[test]
fn modes_given_beside_the_layers_are_used() {
    let layers = vec![
        (solid(1, 1, [100, 200, 30, 255]), BlendMode::Normal),
        (solid(1, 1, [200, 100, 50, 255]), BlendMode::Screen),
    ];
    let mut output = vec![7; 4];
    assert_eq!(Compositor::composite_layers_with_blend_modes(&layers, &mut output, 1, 1), Ok(()));
    assert_eq!(output, vec![221, 221, 74, 255]);
    let mut short = vec![7; 3];
    assert_eq!(
        Compositor::composite_layers_with_blend_modes(&layers, &mut short, 1, 1),
        Err(CanvasError::SizeMismatch)
    );
    assert_eq!(short, vec![7; 3]);
}

#[test]
fn the_output_is_cleared_first() {
    let layers = vec![solid(2, 1, [0, 0, 0, 0])];
    let mut output = vec![200; 8];
    assert_eq!(Compositor::composite_layers(&layers, &mut output, 2, 1), Ok(()));
    assert_eq!(output, vec![0; 8]);
}

#[test]
fn buffers_and_layers_must_have_the_size_of_the_canvas() {
    let layers = vec![solid(2, 2, [1, 1, 1, 255])];
    let mut output = vec![9; 15];
    assert_eq!(Compositor::composite_layers(&layers, &mut output, 2, 2), Err(CanvasError::SizeMismatch));
    assert_eq!(output, vec![9; 15]);
    let mut output = vec![9; 24];
    assert_eq!(Compositor::composite_layers(&layers, &mut output, 3, 2), Err(CanvasError::SizeMismatch));
    assert_eq!(output, vec![9; 24]);
    let layers = vec![solid(2, 2, [1, 1, 1, 255]), solid(4, 1, [1, 1, 1, 255])];
    let mut output = vec![9; 16];
    assert_eq!(Compositor::composite_layers(&layers, &mut output, 2, 2), Err(CanvasError::SizeMismatch));
    assert_eq!(output, vec![9; 16]);
    assert_eq!(Compositor::composite(&layers, 2, 2), Err(CanvasError::SizeMismatch));
}

#[test]
fn one_layer_alone_is_laid_over_a_frame() {
    let mut layer = solid(1, 2, [255, 255, 255, 255]);
    layer.opacity = ONE / 2;
    let mut output = vec![0, 0, 255, 255, 10, 20, 30, 0];
    Compositor::composite_layer_with_blend_mode(&layer, BlendMode::Normal, &mut output);
    assert_eq!(output, vec![127, 127, 255, 255, 255, 255, 255, 127]);
}

#[test]
fn frame_sizes() {
    assert_eq!(frame_len(100, 100), Some(40000));
    assert_eq!(frame_len(0, 100), Some(0));
    assert_eq!(frame_len(u32::MAX, u32::MAX), None);
    assert!(size_matches(40000, 100, 100));
    assert!(!size_matches(39999, 100, 100));
    assert!(!size_matches(0, u32::MAX, u32::MAX));
}

#[test]
fn hidden_layers_of_another_size_are_passed_over() {
    let bottom = solid(2, 2, [10, 20, 30, 255]);
    let mut hidden = solid(5, 1, [255, 255, 255, 255]);
    hidden.visible = false;
    let mut faded = solid(1, 7, [200, 200, 200, 255]);
    faded.opacity = 0;
    let mut broken = solid(2, 2, [9, 9, 9, 255]);
    broken.visible = false;
    broken.data.truncate(3);
    let layers = vec![hidden, bottom, faded, broken];
    assert_eq!(Compositor::composite(&layers, 2, 2), Ok(repeated([10, 20, 30, 255], 4)));
    let mut output = vec![1; 16];
    assert_eq!(Compositor::composite_layers(&layers, &mut output, 2, 2), Ok(()));
    assert_eq!(output, repeated([10, 20, 30, 255], 4));

    let mut only_hidden = solid(3, 3, [1, 1, 1, 255]);
    only_hidden.visible = false;
    assert_eq!(Compositor::composite(&vec![only_hidden], 2, 2), Ok(vec![0; 16]));

    let mut hidden = solid(5, 1, [255, 255, 255, 255]);
    hidden.visible = false;
    let with_modes = vec![(hidden, BlendMode::Screen), (solid(1, 1, [4, 5, 6, 255]), BlendMode::Normal)];
    let mut output = vec![0; 4];
    assert_eq!(Compositor::composite_layers_with_blend_modes(&with_modes, &mut output, 1, 1), Ok(()));
    assert_eq!(output, vec![4, 5, 6, 255]);
}
