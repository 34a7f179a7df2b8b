use kinegraph::binary::{copy_bytes, BinaryTransfer, ImageFormat, RenderResult};
use kinegraph::buffer::{BufferManager, TransferError};
use kinegraph::canvas_state::CanvasId;
use kinegraph::diff_handlers::{clear_render_cache, get_diff_render_result, whole_frame, RenderCache};

fn frame(width: usize, height: usize, value: u8) -> Vec<u8> {
    vec![value; width * height * 4]
}

fn put(data: &mut Vec<u8>, width: usize, x: usize, y: usize, pixel: [u8; 4]) {
    let o = (y * width + x) * 4;
    data[o..o + 4].copy_from_slice(&pixel);
}

#[test]
fn identical_frames_have_no_dirty_region() {
    let a = frame(50, 50, 7);
    let b = frame(50, 50, 7);
    assert!(BufferManager::calculate_dirty_region(&a, &b, 50, 50).is_none());
}

#[test]
fn one_flipped_pixel_is_a_region_of_one_pixel() {
    let a = frame(50, 50, 0);
    let mut b = frame(50, 50, 0);
    put(&mut b, 50, 17, 31, [1, 2, 3, 4]);
    let r = BufferManager::calculate_dirty_region(&a, &b, 50, 50).unwrap();
    assert_eq!((r.x, r.y, r.width, r.height), (17, 31, 1, 1));
    assert_eq!(r.data, vec![1, 2, 3, 4]);
}

#[test]
fn a_change_in_one_channel_counts() {
    let a = frame(4, 4, 9);
    for channel in 0..4 {
        let mut b = a.clone();
        b[(2 * 4 + 3) * 4 + channel] = 10;
        let r = BufferManager::calculate_dirty_region(&a, &b, 4, 4).unwrap();
        assert_eq!((r.x, r.y, r.width, r.height), (3, 2, 1, 1));
        let mut expected = vec![9u8; 4];
        expected[channel] = 10;
        assert_eq!(r.data, expected);
    }
}

#[test]
fn the_region_is_the_bounding_box_of_all_changes() {
    let a = frame(10, 8, 0);
    let mut b = frame(10, 8, 0);
    put(&mut b, 10, 2, 5, [1, 1, 1, 1]);
    put(&mut b, 10, 7, 1, [2, 2, 2, 2]);
    put(&mut b, 10, 4, 3, [3, 3, 3, 3]);
    let r = BufferManager::calculate_dirty_region(&a, &b, 10, 8).unwrap();
    assert_eq!((r.x, r.y, r.width, r.height), (2, 1, 6, 5));
    assert_eq!(r.data.len(), 6 * 5 * 4);
    // Row-major, tightly packed: (7, 1) is column 5 of row 0, (4, 3) column 2 of row 2,
    // (2, 5) column 0 of row 4.
    let at = |i: usize, j: usize| &r.data[(j * 6 + i) * 4..(j * 6 + i) * 4 + 4];
    assert_eq!(at(5, 0), &[2, 2, 2, 2]);
    assert_eq!(at(2, 2), &[3, 3, 3, 3]);
    assert_eq!(at(0, 4), &[1, 1, 1, 1]);
    assert_eq!(at(0, 0), &[0, 0, 0, 0]);
    assert_eq!(r.data.iter().filter(|b| **b != 0).count(), 12);
}

#[test]
fn the_region_carries_the_new_pixels_not_the_old_ones() {
    let a = frame(3, 3, 5);
    let b = frame(3, 3, 6);
    let r = BufferManager::calculate_dirty_region(&a, &b, 3, 3).unwrap();
    assert_eq!((r.x, r.y, r.width, r.height), (0, 0, 3, 3));
    assert_eq!(r.data, b);
}

#[test]
fn corners_and_empty_frames() {
    let a = frame(5, 4, 0);
    let mut b = frame(5, 4, 0);
    put(&mut b, 5, 4, 3, [9, 9, 9, 9]);
    let r = BufferManager::calculate_dirty_region(&a, &b, 5, 4).unwrap();
    assert_eq!((r.x, r.y, r.width, r.height), (4, 3, 1, 1));
    put(&mut b, 5, 0, 0, [8, 8, 8, 8]);
    let r = BufferManager::calculate_dirty_region(&a, &b, 5, 4).unwrap();
    assert_eq!((r.x, r.y, r.width, r.height), (0, 0, 5, 4));
    assert!(BufferManager::calculate_dirty_region(&[], &[], 0, 0).is_none());
    assert!(BufferManager::calculate_dirty_region(&[], &[], 0, 9).is_none());
}

#[test]
fn compression_round_trip() {
    let mut data = Vec::new();
    for i in 0..20000u32 {
        data.push((i % 7) as u8);
    }
    let compressed = BufferManager::compress(&data).unwrap();
    assert_ne!(compressed, data);
    assert!(compressed.len() < data.len());
    // An LZ4 frame starts with its magic number.
    assert_eq!(&compressed[0..4], &[0x04, 0x22, 0x4d, 0x18]);
    let restored = BufferManager::decompress(&compressed).unwrap();
    assert_eq!(restored, data);
}

#[test]
fn compression_of_nothing() {
    let compressed = BufferManager::compress(&[]).unwrap();
    assert!(!compressed.is_empty());
    assert_eq!(BufferManager::decompress(&compressed).unwrap(), Vec::<u8>::new());
}

#[test]
fn compression_is_repeatable() {
    let data: Vec<u8> = (0..5000u32).map(|i| (i * i % 251) as u8).collect();
    assert_eq!(BufferManager::compress(&data).unwrap(), BufferManager::compress(&data).unwrap());
}

#[test]
fn decompression_refuses_what_is_no_frame() {
    let r = BufferManager::decompress(&[1, 2, 3, 4, 5, 6, 7, 8, 9, 10, 11, 12]);
    assert_eq!(r, Err(TransferError::DecompressionFailed));
}

#[test]
fn raw_transfer_keeps_its_bytes() {
    let t = BinaryTransfer::new(vec![1, 2, 3, 4], 1, 1, ImageFormat::Rgba8);
    assert_eq!(t.format, ImageFormat::Rgba8);
    assert_eq!((t.width, t.height), (1, 1));
    assert!(!t.compressed);
    assert_eq!(t.data, vec![1, 2, 3, 4]);
    assert_eq!(t.decompress().unwrap(), vec![1, 2, 3, 4]);
}

#[test]
fn compressed_transfer_gives_the_pixels_back() {
    let pixels: Vec<u8> = (0..4096u32).map(|i| (i / 16) as u8).collect();
    let t = BinaryTransfer::new_compressed(pixels.clone(), 32, 32, ImageFormat::Rgb8).unwrap();
    assert_eq!(t.format, ImageFormat::Rgb8);
    assert_eq!((t.width, t.height), (32, 32));
    assert!(t.compressed);
    assert_ne!(t.data, pixels);
    assert_eq!(t.data, BufferManager::compress(&pixels).unwrap());
    assert_eq!(t.decompress().unwrap(), pixels);
}

#[test]
fn a_transfer_marked_compressed_must_hold_a_frame() {
    let t = BinaryTransfer::from_parts(vec![0; 16], 2, 2, ImageFormat::Rgba8, true);
    assert_eq!(t.decompress(), Err(TransferError::DecompressionFailed));
}

#[test]
fn render_results() {
    let id = CanvasId(77);
    let r = RenderResult::raw(id, vec![5; 8], 2, 1, 1234);
    assert_eq!(r.canvas_id, id);
    assert_eq!(r.timestamp, 1234);
    assert_eq!(r.image_data.data, vec![5; 8]);
    assert!(!r.image_data.compressed);
    assert_eq!(r.image_data.format, ImageFormat::Rgba8);
    let c = RenderResult::compressed(id, vec![5; 800], 20, 10, 99).unwrap();
    assert!(c.image_data.compressed);
    assert_eq!((c.image_data.width, c.image_data.height), (20, 10));
    assert_eq!(c.image_data.decompress().unwrap(), vec![5; 800]);
    assert_eq!(c.timestamp, 99);
}

#[test]
fn copy_bytes_copies() {
    assert_eq!(copy_bytes(&vec![3, 1, 4, 1, 5]), vec![3, 1, 4, 1, 5]);
    assert_eq!(copy_bytes(&Vec::new()), Vec::<u8>::new());
}

#[test]
fn the_first_update_is_the_whole_frame_and_the_second_is_empty() {
    let mut cache = RenderCache::new();
    let id = CanvasId(1);
    let current = frame(6, 5, 40);
    let first = get_diff_render_result(&mut cache, id, current.clone(), 6, 5, 1000);
    assert_eq!(first.canvas_id, id);
    assert_eq!(first.timestamp, 1000);
    let region = first.dirty_region.unwrap();
    assert_eq!((region.x, region.y, region.width, region.height), (0, 0, 6, 5));
    assert_eq!(region.image_data.data, current);
    assert_eq!((region.image_data.width, region.image_data.height), (6, 5));
    assert!(!region.image_data.compressed);
    assert_eq!(region.image_data.format, ImageFormat::Rgba8);

    let second = get_diff_render_result(&mut cache, id, current.clone(), 6, 5, 1001);
    assert!(second.dirty_region.is_none());
    let third = get_diff_render_result(&mut cache, id, current, 6, 5, 1002);
    assert!(third.dirty_region.is_none());
    assert_eq!(third.timestamp, 1002);
}

#[test]
fn an_update_after_a_change_is_the_changed_region_and_the_next_is_empty() {
    let mut cache = RenderCache::new();
    let id = CanvasId(2);
    let mut current = frame(8, 8, 0);
    get_diff_render_result(&mut cache, id, current.clone(), 8, 8, 0);
    put(&mut current, 8, 3, 4, [10, 20, 30, 40]);
    put(&mut current, 8, 4, 6, [50, 60, 70, 80]);
    let update = get_diff_render_result(&mut cache, id, current.clone(), 8, 8, 1);
    let region = update.dirty_region.unwrap();
    assert_eq!((region.x, region.y, region.width, region.height), (3, 4, 2, 3));
    assert_eq!(
        region.image_data.data,
        vec![10, 20, 30, 40, 0, 0, 0, 0, 0, 0, 0, 0, 0, 0, 0, 0, 0, 0, 0, 0, 50, 60, 70, 80]
    );
    assert_eq!((region.image_data.width, region.image_data.height), (2, 3));
    assert_eq!(cache.get(&id), Some(current.clone()));
    assert!(get_diff_render_result(&mut cache, id, current, 8, 8, 2).dirty_region.is_none());
}

#[test]
fn canvases_have_separate_frames() {
    let mut cache = RenderCache::new();
    let a = CanvasId(10);
    let b = CanvasId(11);
    assert_eq!(cache.get(&a), None);
    get_diff_render_result(&mut cache, a, frame(2, 2, 1), 2, 2, 0);
    let first_of_b = get_diff_render_result(&mut cache, b, frame(2, 2, 1), 2, 2, 0);
    assert!(first_of_b.dirty_region.is_some());
    assert!(get_diff_render_result(&mut cache, a, frame(2, 2, 1), 2, 2, 0).dirty_region.is_none());
    clear_render_cache(&mut cache, a);
    assert_eq!(cache.get(&a), None);
    assert_eq!(cache.get(&b), Some(frame(2, 2, 1)));
    let again = get_diff_render_result(&mut cache, a, frame(2, 2, 1), 2, 2, 0);
    assert_eq!(again.dirty_region.unwrap().image_data.data, frame(2, 2, 1));
}

#[test]
fn a_frame_of_another_size_is_sent_whole() {
    let mut cache = RenderCache::new();
    let id = CanvasId(3);
    get_diff_render_result(&mut cache, id, frame(4, 4, 9), 4, 4, 0);
    let update = get_diff_render_result(&mut cache, id, frame(2, 3, 9), 2, 3, 1);
    let region = update.dirty_region.unwrap();
    assert_eq!((region.x, region.y, region.width, region.height), (0, 0, 2, 3));
    assert_eq!(region.image_data.data, frame(2, 3, 9));
}

#[test]
fn cache_set_get_remove() {
    let mut cache = RenderCache::new();
    let id = CanvasId(5);
    cache.set(id, vec![1, 2, 3]);
    assert_eq!(cache.get(&id), Some(vec![1, 2, 3]));
    cache.set(id, vec![4]);
    assert_eq!(cache.get(&id), Some(vec![4]));
    assert!(cache.update_for(&id, &vec![4, 4, 4, 4], 1, 1).is_some());
    cache.remove(&id);
    assert_eq!(cache.get(&id), None);
    let w = whole_frame(&vec![7; 12], 3, 1);
    assert_eq!((w.x, w.y, w.width, w.height), (0, 0, 3, 1));
    assert_eq!(w.image_data.data, vec![7; 12]);
}
