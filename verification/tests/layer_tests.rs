use kinegraph::canvas_state::{create_canvas, CanvasId, CanvasState};
use kinegraph::commands::{BlendMode, ONE};
use kinegraph::error::CanvasError;
use kinegraph::ids::{ID_FORMAT_MASK, ID_FORMAT_RANDOM};
use kinegraph::layer::{create_layer, is_valid_size, zeroed, Layer};

#[test]
fn a_new_layer_is_transparent_and_of_the_right_size() {
    for (w, h) in [(1u32, 1u32), (100, 100), (3, 7), (640, 480), (3840, 1), (1, 2160)] {
        let layer = create_layer(w, h).unwrap();
        assert_eq!(layer.data.len(), (w * h * 4) as usize);
        assert!(layer.data.iter().all(|b| *b == 0));
        assert_eq!((layer.width, layer.height), (w, h));
    }
}

#[test]
fn the_largest_layer_is_accepted() {
    let layer = create_layer(3840, 2160).unwrap();
    assert_eq!(layer.data.len(), 33177600);
    assert!(layer.data.iter().all(|b| *b == 0));
}

#[test]
fn layers_of_invalid_size_are_refused() {
    for (w, h) in [(0u32, 0u32), (0, 10), (10, 0), (3841, 10), (10, 2161), (u32::MAX, u32::MAX)] {
        assert!(!is_valid_size(w, h));
        match create_layer(w, h) {
            Err(e) => assert_eq!(e, CanvasError::InvalidDimensions),
            Ok(_) => panic!("accepted {}x{}", w, h),
        }
    }
    assert!(is_valid_size(3840, 2160));
}

#[test]
fn a_new_layer_has_the_default_properties() {
    let layer = Layer::new(4, 3);
    assert_eq!(layer.opacity, ONE);
    assert!(layer.visible);
    assert_eq!(layer.name, "Layer");
    assert_eq!(layer.blend_mode, BlendMode::Normal);
    assert_eq!(layer.texture_id, None);
    assert_eq!(layer.data, vec![0; 48]);
}

#[test]
fn layer_ids_are_random_identifiers() {
    let a = Layer::new(1, 1);
    let b = Layer::new(1, 1);
    assert_ne!(a.id, b.id);
    assert_ne!(a.id, 0);
    assert_eq!(a.id & ID_FORMAT_MASK, ID_FORMAT_RANDOM);
    assert_eq!(b.id & ID_FORMAT_MASK, ID_FORMAT_RANDOM);
    let id = uuid::Uuid::from_u128(a.id);
    assert_eq!(id.get_version_num(), 4);
    let c = CanvasId::new();
    assert_eq!(uuid::Uuid::from_u128(c.0).get_version_num(), 4);
    assert_ne!(c, CanvasId::new());
}

#[test]
fn pixels_are_written_and_read_in_bounds() {
    let mut layer = Layer::new(5, 4);
    layer.set_pixel(2, 3, [1, 2, 3, 4]);
    assert_eq!(layer.get_pixel(2, 3), Some([1, 2, 3, 4]));
    assert_eq!(&layer.data[(3 * 5 + 2) * 4..(3 * 5 + 2) * 4 + 4], &[1, 2, 3, 4]);
    assert_eq!(layer.data.iter().filter(|b| **b != 0).count(), 4);
    assert_eq!(layer.get_pixel(0, 0), Some([0, 0, 0, 0]));
    layer.set_pixel(4, 3, [9, 9, 9, 9]);
    assert_eq!(layer.get_pixel(4, 3), Some([9, 9, 9, 9]));
    assert_eq!(&layer.data[76..80], &[9, 9, 9, 9]);
}

#[test]
fn pixels_out_of_bounds_are_ignored() {
    let mut layer = Layer::new(5, 4);
    layer.set_pixel(5, 0, [1, 1, 1, 1]);
    layer.set_pixel(0, 4, [1, 1, 1, 1]);
    layer.set_pixel(u32::MAX, u32::MAX, [1, 1, 1, 1]);
    assert!(layer.data.iter().all(|b| *b == 0));
    assert_eq!(layer.get_pixel(5, 0), None);
    assert_eq!(layer.get_pixel(0, 4), None);
    assert_eq!(layer.get_pixel(u32::MAX, 0), None);
}

#[test]
fn clear_makes_everything_transparent() {
    let mut layer = Layer::new(3, 3);
    layer.set_pixel(1, 1, [5, 6, 7, 8]);
    layer.opacity = 100;
    layer.clear();
    assert_eq!(layer.data, vec![0; 36]);
    assert_eq!(layer.opacity, 100);
    assert_eq!((layer.width, layer.height), (3, 3));
}

fn numbered(width: u32, height: u32) -> Layer {
    let mut layer = Layer::new(width, height);
    for y in 0..height {
        for x in 0..width {
            layer.set_pixel(x, y, [x as u8 + 1, y as u8 + 1, 100, 255]);
        }
    }
    layer
}

#[test]
fn growing_keeps_the_pixels_and_fills_with_zero() {
    let mut layer = numbered(2, 2);
    layer.texture_id = Some(4);
    let id = layer.id;
    layer.resize(3, 4);
    assert_eq!((layer.width, layer.height), (3, 4));
    assert_eq!(layer.data.len(), 48);
    assert_eq!(layer.texture_id, None);
    assert_eq!(layer.id, id);
    for y in 0..4u32 {
        for x in 0..3u32 {
            let expected = if x < 2 && y < 2 { [x as u8 + 1, y as u8 + 1, 100, 255] } else { [0, 0, 0, 0] };
            assert_eq!(layer.get_pixel(x, y), Some(expected));
        }
    }
}

#[test]
fn shrinking_keeps_the_top_left_rectangle() {
    let mut layer = numbered(5, 4);
    layer.resize(2, 3);
    assert_eq!(layer.data.len(), 24);
    for y in 0..3u32 {
        for x in 0..2u32 {
            assert_eq!(layer.get_pixel(x, y), Some([x as u8 + 1, y as u8 + 1, 100, 255]));
        }
    }
    assert_eq!(layer.get_pixel(2, 0), None);
}

#[test]
fn resizing_in_one_direction_each() {
    let mut layer = numbered(4, 2);
    layer.resize(2, 5);
    assert_eq!(
        layer.data,
        vec![
            1, 1, 100, 255, 2, 1, 100, 255, 1, 2, 100, 255, 2, 2, 100, 255, 0, 0, 0, 0, 0, 0, 0, 0, 0, 0, 0, 0, 0, 0,
            0, 0, 0, 0, 0, 0, 0, 0, 0, 0
        ]
    );
    layer.resize(1, 1);
    assert_eq!(layer.data, vec![1, 1, 100, 255]);
}

#[test]
fn zeroed_is_zero() {
    assert_eq!(zeroed(0), Vec::<u8>::new());
    assert_eq!(zeroed(5), vec![0, 0, 0, 0, 0]);
}

#[test]
fn a_new_canvas_has_one_active_layer() {
    let canvas = CanvasState::new(CanvasId(42), 8, 6);
    assert_eq!(canvas.id, CanvasId(42));
    assert_eq!((canvas.width, canvas.height), (8, 6));
    assert_eq!(canvas.layers.len(), 1);
    assert_eq!(canvas.layers[0].data, vec![0; 192]);
    assert_eq!(canvas.active_layer, 0);
    assert!(canvas.dirty);
    assert_eq!(canvas.texture_id, None);
    assert_eq!(canvas.get_active_layer().unwrap().id, canvas.layers[0].id);
}

#[test]
fn canvases_of_invalid_size_are_refused() {
    assert!(matches!(create_canvas(0, 5), Err(CanvasError::InvalidDimensions)));
    assert!(matches!(create_canvas(5, 4000), Err(CanvasError::InvalidDimensions)));
    let canvas = create_canvas(5, 4).unwrap();
    assert_eq!((canvas.width, canvas.height), (5, 4));
    assert_eq!(canvas.layers.len(), 1);
    assert_eq!(canvas.layers[0].data, vec![0; 80]);
    assert_eq!(canvas.active_layer, 0);
    assert_eq!(canvas.texture_id, None);
    assert!(canvas.dirty);
    assert_eq!(uuid::Uuid::from_u128(canvas.id.0).get_version_num(), 4);
}

#[test]
fn the_last_layer_cannot_be_deleted() {
    let mut canvas = CanvasState::new(CanvasId(1), 4, 4);
    canvas.dirty = false;
    assert_eq!(canvas.delete_layer(0), Err(CanvasError::LastLayerProtected));
    assert_eq!(canvas.delete_layer(5), Err(CanvasError::LastLayerProtected));
    assert_eq!(canvas.layers.len(), 1);
    assert_eq!(canvas.active_layer, 0);
    assert!(!canvas.dirty);
}

#[test]
fn any_layer_of_several_can_be_deleted() {
    for count in 2..5usize {
        for victim in 0..count {
            for active in 0..count {
                let mut canvas = CanvasState::new(CanvasId(1), 2, 2);
                while canvas.layers.len() < count {
                    canvas.add_layer();
                }
                let ids: Vec<u128> = canvas.layers.iter().map(|l| l.id).collect();
                canvas.set_active_layer(active).unwrap();
                assert_eq!(canvas.delete_layer(victim), Ok(()));
                assert_eq!(canvas.layers.len(), count - 1);
                assert!(canvas.active_layer < canvas.layers.len());
                let expected_active = if active >= count - 1 { count - 2 } else { active };
                assert_eq!(canvas.active_layer, expected_active);
                let mut expected_ids = ids.clone();
                expected_ids.remove(victim);
                let left: Vec<u128> = canvas.layers.iter().map(|l| l.id).collect();
                assert_eq!(left, expected_ids);
                assert!(canvas.dirty);
            }
        }
    }
}

#[test]
fn deleting_a_layer_that_does_not_exist_changes_nothing() {
    let mut canvas = CanvasState::new(CanvasId(1), 2, 2);
    canvas.add_layer();
    canvas.dirty = false;
    assert_eq!(canvas.delete_layer(2), Err(CanvasError::NotFound));
    assert_eq!(canvas.delete_layer(usize::MAX), Err(CanvasError::NotFound));
    assert_eq!(canvas.layers.len(), 2);
    assert!(!canvas.dirty);
}

#[test]
fn adding_a_layer_puts_it_on_top() {
    let mut canvas = CanvasState::new(CanvasId(1), 3, 2);
    canvas.layers[0].set_pixel(0, 0, [1, 2, 3, 4]);
    canvas.dirty = false;
    let index = canvas.add_layer();
    assert_eq!(index, 1);
    assert_eq!(canvas.layers.len(), 2);
    assert_eq!(canvas.layers[1].data, vec![0; 24]);
    assert_eq!((canvas.layers[1].width, canvas.layers[1].height), (3, 2));
    assert_eq!(canvas.layers[0].get_pixel(0, 0), Some([1, 2, 3, 4]));
    assert_eq!(canvas.active_layer, 0);
    assert!(canvas.dirty);
}

#[test]
fn the_active_layer_is_set_only_to_a_layer_that_exists() {
    let mut canvas = CanvasState::new(CanvasId(1), 2, 2);
    canvas.add_layer();
    assert_eq!(canvas.set_active_layer(1), Ok(()));
    assert_eq!(canvas.active_layer, 1);
    assert_eq!(canvas.set_active_layer(2), Err(CanvasError::NotFound));
    assert_eq!(canvas.active_layer, 1);
}

#[test]
fn resizing_a_canvas_resizes_every_layer() {
    let mut canvas = CanvasState::new(CanvasId(1), 2, 2);
    canvas.add_layer();
    canvas.layers[0].set_pixel(1, 1, [1, 1, 1, 1]);
    canvas.layers[1].set_pixel(0, 1, [2, 2, 2, 2]);
    canvas.texture_id = Some(3);
    canvas.dirty = false;
    canvas.resize(3, 3);
    assert_eq!((canvas.width, canvas.height), (3, 3));
    for layer in &canvas.layers {
        assert_eq!((layer.width, layer.height), (3, 3));
        assert_eq!(layer.data.len(), 36);
    }
    assert_eq!(canvas.layers[0].get_pixel(1, 1), Some([1, 1, 1, 1]));
    assert_eq!(canvas.layers[1].get_pixel(0, 1), Some([2, 2, 2, 2]));
    assert_eq!(canvas.layers[1].get_pixel(2, 2), Some([0, 0, 0, 0]));
    assert_eq!(canvas.texture_id, None);
    assert!(canvas.dirty);
}

#[test]
fn errors_have_messages() {
    assert_eq!(CanvasError::LastLayerProtected.message(), "Cannot delete the last layer");
    assert_eq!(CanvasError::NotFound.message(), "Layer index out of bounds");
    assert_eq!(CanvasError::SizeMismatch.message(), "Buffer size mismatch");
    assert_eq!(CanvasError::InvalidDimensions.message(), "Invalid dimensions");
    assert_eq!(CanvasError::MemoryLimitExceeded.message(), "Memory limit exceeded");
    assert_eq!(CanvasError::DeviceUnavailable.message(), "Device unavailable");
    assert_eq!(CanvasError::ReadbackFailed.message(), "Readback failed");
}
