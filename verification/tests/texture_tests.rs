use kinegraph::pool::{Acquired, TextureManager};
use kinegraph::texture::{
    ManagedTexture, TextureError, TextureFormat, TextureSpec, CLEANUP_THRESHOLD_MS, DEFAULT_MEMORY_LIMIT,
    USAGE_COPY_DST, USAGE_COPY_SRC, USAGE_LAYER, USAGE_RENDER_ATTACHMENT, USAGE_TEXTURE_BINDING,
};

#[test]
fn test_texture_spec_creation() {
    let spec = TextureSpec::layer_texture(1920, 1080);
    assert_eq!(spec.width, 1920);
    assert_eq!(spec.height, 1080);
    assert_eq!(spec.format, TextureFormat::Rgba8UnormSrgb);
    assert!(spec.has_usage(USAGE_RENDER_ATTACHMENT));
    assert!(spec.has_usage(USAGE_COPY_SRC));
    assert!(spec.has_usage(USAGE_COPY_DST));
}

#[test]
fn test_texture_spec_memory_size() {
    let spec = TextureSpec::layer_texture(1920, 1080);
    let expected_size = 1920 * 1080 * 4;
    assert_eq!(spec.memory_size(), expected_size as u64);
}

#[test]
fn test_texture_manager_creation() {
    let manager = TextureManager::new();
    assert_eq!(manager.get_memory_usage(), 0);
    let (current, limit, active, total) = manager.get_memory_stats();
    assert_eq!(current, 0);
    assert!(limit > 0);
    assert_eq!(active, 0);
    assert_eq!(total, 0);
}

#[test]
fn test_create_layer_texture() {
    let mut manager = TextureManager::new();

    let result = manager.create_layer_texture(1, 512, 512, 0);
    assert!(result.is_ok());

    let texture = manager.get_layer_texture(1);
    assert!(texture.is_some());

    let texture = texture.unwrap();
    assert_eq!(texture.spec.width, 512);
    assert_eq!(texture.spec.height, 512);

    let (memory_usage, _, active_textures, total_textures) = manager.get_memory_stats();
    assert!(memory_usage > 0);
    assert_eq!(active_textures, 1);
    assert_eq!(total_textures, 1);
}

#[test]
fn texture_test_invalid_dimensions() {
    let mut manager = TextureManager::new();

    let result = manager.create_layer_texture(7, 0, 256, 0);
    assert!(result.is_err());

    let result = manager.create_layer_texture(7, 256, 0, 0);
    assert!(result.is_err());

    let result = manager.create_layer_texture(7, 5000, 256, 0);
    assert!(result.is_err());
}

#[test]
fn test_texture_error_display() {
    let error = TextureError::InvalidDimensions(0, 256);
    let error_string = error.to_string();
    assert!(error_string.contains("無効な寸法"));
    assert!(error_string.contains("0x256"));

    let error = TextureError::TextureNotFound("test_texture".to_string());
    let error_string = error.to_string();
    assert!(error_string.contains("テクスチャが見つかりません"));
    assert!(error_string.contains("test_texture"));
}

#[test]
fn every_texture_error_has_its_message() {
    assert_eq!(TextureError::DeviceNotInitialized.to_string(), "wgpu Device が初期化されていません");
    assert_eq!(
        TextureError::TextureCreationFailed("x".to_string()).to_string(),
        "テクスチャ作成に失敗しました: x"
    );
    assert_eq!(TextureError::BufferCreationFailed("y".to_string()).to_string(), "バッファ作成に失敗しました: y");
    assert_eq!(TextureError::BufferReadFailed("z".to_string()).to_string(), "バッファ読み取りに失敗しました: z");
    assert_eq!(
        TextureError::MemoryLimitExceeded(42).to_string(),
        "メモリ使用量が上限を超えました: 42 bytes"
    );
    assert_eq!(TextureError::InvalidDimensions(3, 0).to_string(), "無効な寸法です: 3x0");
}

#[test]
fn layer_texture_usage_is_the_three_flags() {
    let spec = TextureSpec::layer_texture(4, 4);
    assert_eq!(spec.usage, USAGE_LAYER);
    assert_eq!(USAGE_LAYER, USAGE_RENDER_ATTACHMENT | USAGE_COPY_SRC | USAGE_COPY_DST);
    assert!(!spec.has_usage(USAGE_TEXTURE_BINDING));
    assert!(spec.has_usage(USAGE_COPY_SRC | USAGE_COPY_DST));
}

#[test]
fn usage_flags_agree_with_the_device_library() {
    assert_eq!(USAGE_COPY_SRC, wgpu::TextureUsages::COPY_SRC.bits());
    assert_eq!(USAGE_COPY_DST, wgpu::TextureUsages::COPY_DST.bits());
    assert_eq!(USAGE_TEXTURE_BINDING, wgpu::TextureUsages::TEXTURE_BINDING.bits());
    assert_eq!(USAGE_RENDER_ATTACHMENT, wgpu::TextureUsages::RENDER_ATTACHMENT.bits());
}

#[test]
fn memory_size_counts_bytes_per_pixel() {
    let mut spec = TextureSpec::layer_texture(10, 7);
    assert_eq!(spec.memory_size(), 280);
    spec.format = TextureFormat::R8Unorm;
    assert_eq!(spec.memory_size(), 70);
    spec.format = TextureFormat::Bgra8UnormSrgb;
    assert_eq!(spec.memory_size(), 280);
    spec.format = TextureFormat::Other;
    assert_eq!(spec.memory_size(), 280);
    assert_eq!(TextureSpec::layer_texture(3840, 2160).memory_size(), 33177600);
}

#[test]
fn valid_dimensions_are_checked_at_the_bounds() {
    assert!(TextureSpec::layer_texture(1, 1).has_valid_dimensions());
    assert!(TextureSpec::layer_texture(3840, 2160).has_valid_dimensions());
    assert!(!TextureSpec::layer_texture(3841, 2160).has_valid_dimensions());
    assert!(!TextureSpec::layer_texture(3840, 2161).has_valid_dimensions());
    assert!(!TextureSpec::layer_texture(0, 1).has_valid_dimensions());
    assert!(!TextureSpec::layer_texture(1, 0).has_valid_dimensions());
}

#[test]
fn managed_texture_marks() {
    let spec = TextureSpec::layer_texture(8, 8);
    let mut t = ManagedTexture::new(5, spec, 100);
    assert_eq!(t.id, 5);
    assert_eq!(t.last_used, 100);
    assert!(!t.is_in_use);
    assert_eq!(t.layer, None);
    t.mark_used(250);
    assert!(t.is_in_use);
    assert_eq!(t.last_used, 250);
    t.mark_unused();
    assert!(!t.is_in_use);
    assert_eq!(t.last_used, 250);
}

#[test]
fn new_pool_has_the_default_budget() {
    let manager = TextureManager::new();
    let (used, limit, active, total) = manager.get_memory_stats();
    assert_eq!((used, limit, active, total), (0, DEFAULT_MEMORY_LIMIT, 0, 0));
    assert_eq!(DEFAULT_MEMORY_LIMIT, 2 * 1024 * 1024 * 1024);
}

#[test]
fn acquire_creates_then_reuses() {
    let mut pool = TextureManager::new();
    let spec = TextureSpec::layer_texture(64, 64);
    let first = pool.acquire(&spec, 10).unwrap();
    assert_eq!(first, Acquired { texture_id: 1, reused: false });
    assert_eq!(pool.get_memory_usage(), 64 * 64 * 4);

    assert!(pool.release(first.texture_id, 20));
    assert_eq!(pool.get_memory_usage(), 64 * 64 * 4);
    assert_eq!(pool.get_memory_stats(), (16384, DEFAULT_MEMORY_LIMIT, 0, 1));

    let second = pool.acquire(&spec, 30).unwrap();
    assert_eq!(second, Acquired { texture_id: 1, reused: true });
    assert_eq!(pool.get_memory_usage(), 64 * 64 * 4);
    assert_eq!(pool.get_memory_stats(), (16384, DEFAULT_MEMORY_LIMIT, 1, 1));
}

#[test]
fn acquire_release_acquire_does_not_count_twice() {
    let mut pool = TextureManager::new();
    let spec = TextureSpec::layer_texture(100, 50);
    let other = TextureSpec::layer_texture(10, 10);
    pool.acquire(&other, 1).unwrap();
    let a = pool.acquire(&spec, 2).unwrap();
    let after_first = pool.get_memory_usage();
    assert_eq!(after_first, 400 + 20000);
    pool.release(a.texture_id, 3);
    let b = pool.acquire(&spec, 4).unwrap();
    assert!(b.reused);
    assert_eq!(b.texture_id, a.texture_id);
    assert!(pool.get_memory_usage() <= after_first + spec.memory_size());
    assert_eq!(pool.get_memory_usage(), after_first);
}

#[test]
fn a_different_shape_is_not_reused() {
    let mut pool = TextureManager::new();
    let a = pool.acquire(&TextureSpec::layer_texture(32, 32), 1).unwrap();
    pool.release(a.texture_id, 2);
    let b = pool.acquire(&TextureSpec::layer_texture(32, 16), 3).unwrap();
    assert_eq!(b, Acquired { texture_id: 2, reused: false });
    assert_eq!(pool.get_memory_usage(), 32 * 32 * 4 + 32 * 16 * 4);
    // Width and height decide; layout and usage are taken to be the same.
    let mut other_usage = TextureSpec::layer_texture(32, 32);
    other_usage.usage = USAGE_COPY_SRC;
    let c = pool.acquire(&other_usage, 4).unwrap();
    assert_eq!(c, Acquired { texture_id: a.texture_id, reused: true });
    assert_eq!(pool.get_memory_usage(), 32 * 32 * 4 + 32 * 16 * 4);
}

#[test]
fn reuse_takes_the_texture_released_first() {
    let mut pool = TextureManager::new();
    let spec = TextureSpec::layer_texture(16, 16);
    let a = pool.acquire(&spec, 1).unwrap();
    let b = pool.acquire(&spec, 2).unwrap();
    let c = pool.acquire(&spec, 3).unwrap();
    pool.release(b.texture_id, 4);
    pool.release(c.texture_id, 5);
    pool.release(a.texture_id, 6);
    assert_eq!(pool.acquire(&spec, 7).unwrap().texture_id, b.texture_id);
    assert_eq!(pool.acquire(&spec, 8).unwrap().texture_id, c.texture_id);
    assert_eq!(pool.acquire(&spec, 9).unwrap().texture_id, a.texture_id);
}

#[test]
fn acquire_refuses_invalid_dimensions_and_changes_nothing() {
    let mut pool = TextureManager::new();
    let r = pool.acquire(&TextureSpec::layer_texture(0, 5), 1);
    assert_eq!(r, Err(TextureError::InvalidDimensions(0, 5)));
    let r = pool.acquire(&TextureSpec::layer_texture(3841, 5), 1);
    assert_eq!(r, Err(TextureError::InvalidDimensions(3841, 5)));
    assert_eq!(pool.get_memory_stats(), (0, DEFAULT_MEMORY_LIMIT, 0, 0));
}

#[test]
fn eviction_destroys_the_least_recently_used_idle_texture_first() {
    let mut pool = TextureManager::new();
    let small = TextureSpec::layer_texture(10, 10);
    pool.set_memory_limit(3 * 400);
    let a = pool.acquire(&small, 1).unwrap();
    let b = pool.acquire(&small, 2).unwrap();
    let c = pool.acquire(&small, 3).unwrap();
    assert_eq!(pool.get_memory_usage(), 1200);
    // b becomes the oldest idle texture, a the youngest; c stays in use.
    pool.release(a.texture_id, 50);
    pool.release(b.texture_id, 40);
    let wide = TextureSpec::layer_texture(20, 5);
    let d = pool.acquire(&wide, 60).unwrap();
    assert!(!d.reused);
    assert_eq!(d.texture_id, 4);
    assert!(!pool.contains_texture(b.texture_id));
    assert!(pool.contains_texture(a.texture_id));
    assert!(pool.contains_texture(c.texture_id));
    assert_eq!(pool.get_memory_usage(), 1200);
    assert_eq!(pool.get_memory_stats(), (1200, 1200, 2, 3));
}

#[test]
fn eviction_stops_as_soon_as_the_allocation_fits() {
    let mut pool = TextureManager::new();
    let small = TextureSpec::layer_texture(10, 10);
    pool.set_memory_limit(1500);
    let a = pool.acquire(&small, 1).unwrap();
    let b = pool.acquire(&small, 2).unwrap();
    let c = pool.acquire(&small, 3).unwrap();
    pool.release(a.texture_id, 10);
    pool.release(b.texture_id, 11);
    pool.release(c.texture_id, 12);
    // 1200 used, 600 wanted, 1500 allowed: one eviction is enough.
    let d = pool.acquire(&TextureSpec::layer_texture(15, 10), 20).unwrap();
    assert!(!d.reused);
    assert!(!pool.contains_texture(a.texture_id));
    assert!(pool.contains_texture(b.texture_id));
    assert!(pool.contains_texture(c.texture_id));
    assert_eq!(pool.get_memory_usage(), 1400);
}

#[test]
fn textures_in_use_are_never_evicted() {
    let mut pool = TextureManager::new();
    let small = TextureSpec::layer_texture(10, 10);
    pool.set_memory_limit(800);
    let a = pool.acquire(&small, 1).unwrap();
    let b = pool.acquire(&small, 2).unwrap();
    let r = pool.acquire(&TextureSpec::layer_texture(10, 5), 3);
    assert_eq!(r, Err(TextureError::MemoryLimitExceeded(200)));
    assert!(pool.contains_texture(a.texture_id));
    assert!(pool.contains_texture(b.texture_id));
    assert_eq!(pool.get_memory_stats(), (800, 800, 2, 2));
}

#[test]
fn a_failed_allocation_changes_nothing() {
    let mut pool = TextureManager::new();
    let small = TextureSpec::layer_texture(10, 10);
    pool.set_memory_limit(800);
    let a = pool.acquire(&small, 1).unwrap();
    let b = pool.acquire(&small, 2).unwrap();
    pool.release(a.texture_id, 3);
    // 400 bytes are in use; 1200 more cannot fit under 800 whatever is evicted.
    let r = pool.acquire(&TextureSpec::layer_texture(30, 10), 4);
    assert_eq!(r, Err(TextureError::MemoryLimitExceeded(1200)));
    assert!(pool.contains_texture(a.texture_id));
    assert!(pool.contains_texture(b.texture_id));
    assert_eq!(pool.get_memory_stats(), (800, 800, 1, 2));
    // 400 more fit once the idle texture has gone.
    let c = pool.acquire(&TextureSpec::layer_texture(20, 5), 5).unwrap();
    assert!(!c.reused);
    assert!(!pool.contains_texture(a.texture_id));
    assert_eq!(pool.get_memory_stats(), (800, 800, 2, 2));
}

#[test]
fn memory_is_refused_exactly_when_the_textures_in_use_leave_no_room() {
    let mut pool = TextureManager::new();
    pool.set_memory_limit(1000);
    let a = pool.acquire(&TextureSpec::layer_texture(10, 10), 1).unwrap();
    pool.acquire(&TextureSpec::layer_texture(10, 10), 2).unwrap();
    pool.release(a.texture_id, 3);
    // In use: 400. A request of 600 fits exactly, one of 604 does not.
    assert_eq!(
        pool.acquire(&TextureSpec::layer_texture(151, 1), 4),
        Err(TextureError::MemoryLimitExceeded(604))
    );
    assert_eq!(pool.get_memory_stats(), (800, 1000, 1, 2));
    assert!(pool.acquire(&TextureSpec::layer_texture(150, 1), 5).is_ok());
    assert_eq!(pool.get_memory_stats(), (1000, 1000, 2, 2));
}

#[test]
fn exhausting_the_budget_then_reusing_a_released_texture() {
    let mut pool = TextureManager::new();
    let spec = TextureSpec::layer_texture(256, 256);
    let size = spec.memory_size();
    pool.set_memory_limit(4 * size + 100);
    let mut ids = Vec::new();
    loop {
        match pool.acquire(&spec, ids.len() as u64) {
            Ok(a) => {
                assert!(!a.reused);
                ids.push(a.texture_id);
            }
            Err(e) => {
                assert_eq!(e, TextureError::MemoryLimitExceeded(size));
                break;
            }
        }
    }
    assert_eq!(ids, vec![1, 2, 3, 4]);
    assert_eq!(pool.get_memory_usage(), 4 * size);
    pool.release(ids[0], 100);
    pool.release(ids[1], 101);
    let before = pool.get_memory_usage();
    let again = pool.acquire(&spec, 102).unwrap();
    assert!(again.reused);
    assert_eq!(again.texture_id, ids[0]);
    assert_eq!(pool.get_memory_usage(), before);
    assert_eq!(pool.get_memory_stats(), (4 * size, 4 * size + 100, 3, 4));
}

#[test]
fn force_cleanup_memory_reports_whether_there_is_room() {
    let mut pool = TextureManager::new();
    let small = TextureSpec::layer_texture(10, 10);
    pool.set_memory_limit(1000);
    let a = pool.acquire(&small, 1).unwrap();
    let b = pool.acquire(&small, 2).unwrap();
    pool.release(a.texture_id, 3);
    assert_eq!(pool.force_cleanup_memory(100), Ok(()));
    assert!(pool.contains_texture(a.texture_id));
    assert_eq!(pool.force_cleanup_memory(300), Ok(()));
    assert!(!pool.contains_texture(a.texture_id));
    assert_eq!(pool.force_cleanup_memory(700), Err(TextureError::MemoryLimitExceeded(700)));
    assert!(pool.contains_texture(b.texture_id));
    assert_eq!(pool.get_memory_usage(), 400);
}

#[test]
fn release_of_an_unknown_or_idle_texture_does_nothing() {
    let mut pool = TextureManager::new();
    let a = pool.acquire(&TextureSpec::layer_texture(4, 4), 1).unwrap();
    assert!(!pool.release(99, 2));
    assert!(pool.release(a.texture_id, 3));
    assert!(!pool.release(a.texture_id, 4));
    assert_eq!(pool.get_memory_stats(), (64, DEFAULT_MEMORY_LIMIT, 0, 1));
}

#[test]
fn destroy_idle_frees_only_what_is_idle_and_old() {
    let mut pool = TextureManager::new();
    let spec = TextureSpec::layer_texture(10, 10);
    let a = pool.acquire(&spec, 0).unwrap();
    let b = pool.acquire(&spec, 0).unwrap();
    let c = pool.acquire(&spec, 0).unwrap();
    pool.release(a.texture_id, 1000);
    pool.release(b.texture_id, 5000);
    // a has been idle for 9000, b for 5000, c is in use.
    pool.destroy_idle(10000, 5000);
    assert!(!pool.contains_texture(a.texture_id));
    assert!(pool.contains_texture(b.texture_id));
    assert!(pool.contains_texture(c.texture_id));
    assert_eq!(pool.get_memory_stats(), (800, DEFAULT_MEMORY_LIMIT, 1, 2));
    pool.destroy_idle(10001, 5000);
    assert!(!pool.contains_texture(b.texture_id));
    assert_eq!(pool.get_memory_usage(), 400);
    // A clock that runs backwards destroys nothing.
    pool.release(c.texture_id, 20000);
    pool.destroy_idle(5, 0);
    assert!(pool.contains_texture(c.texture_id));
}

#[test]
fn routine_cleanup_uses_five_minutes() {
    assert_eq!(CLEANUP_THRESHOLD_MS, 300 * 1000);
    let mut pool = TextureManager::new();
    let a = pool.acquire(&TextureSpec::layer_texture(10, 10), 0).unwrap();
    pool.release(a.texture_id, 1000);
    pool.cleanup_unused_textures(301000);
    assert!(pool.contains_texture(a.texture_id));
    pool.cleanup_unused_textures(301001);
    assert!(!pool.contains_texture(a.texture_id));
    assert_eq!(pool.get_memory_usage(), 0);
}

#[test]
fn a_layer_keeps_one_texture() {
    let mut pool = TextureManager::new();
    let first = pool.create_layer_texture(9, 64, 64, 1).unwrap();
    let second = pool.create_layer_texture(9, 32, 32, 2).unwrap();
    assert!(!second.reused);
    let bound = pool.get_layer_texture(9).unwrap();
    assert_eq!(bound.id, second.texture_id);
    assert_eq!(bound.layer, Some(9));
    assert!(bound.is_in_use);
    assert_eq!(bound.last_used, 2);
    assert_eq!(pool.get_memory_stats(), (64 * 64 * 4 + 32 * 32 * 4, DEFAULT_MEMORY_LIMIT, 1, 2));
    // Asking for the first size again takes the texture that was released.
    let third = pool.resize_texture(9, 64, 64, 3).unwrap();
    assert_eq!(third, Acquired { texture_id: first.texture_id, reused: true });
    assert_eq!(pool.get_layer_texture(9).unwrap().id, first.texture_id);
    assert!(pool.get_layer_texture(8).is_none());
}

#[test]
fn remove_layer_texture_releases_it() {
    let mut pool = TextureManager::new();
    let a = pool.create_layer_texture(3, 16, 16, 1).unwrap();
    assert!(!pool.remove_layer_texture(4, 2));
    assert!(pool.remove_layer_texture(3, 2));
    assert!(pool.get_layer_texture(3).is_none());
    assert!(pool.contains_texture(a.texture_id));
    assert_eq!(pool.get_memory_stats(), (1024, DEFAULT_MEMORY_LIMIT, 0, 1));
    let b = pool.create_layer_texture(5, 16, 16, 3).unwrap();
    assert_eq!(b, Acquired { texture_id: a.texture_id, reused: true });
    assert_eq!(pool.get_layer_texture(5).unwrap().layer, Some(5));
}

#[test]
fn a_layer_whose_new_texture_does_not_fit_keeps_the_one_it_holds() {
    let mut pool = TextureManager::new();
    pool.set_memory_limit(1024);
    let held = pool.create_layer_texture(1, 16, 16, 1).unwrap();
    let before = pool.get_memory_stats();
    let r = pool.create_layer_texture(1, 32, 32, 2);
    assert_eq!(r, Err(TextureError::MemoryLimitExceeded(4096)));
    let texture = pool.get_layer_texture(1).unwrap();
    assert_eq!(texture.id, held.texture_id);
    assert!(texture.is_in_use);
    assert_eq!(texture.last_used, 1);
    assert_eq!(pool.get_memory_stats(), before);
    assert_eq!(before, (1024, 1024, 1, 1));
    // The same holds for a size that is refused.
    assert_eq!(pool.resize_texture(1, 0, 32, 3), Err(TextureError::InvalidDimensions(0, 32)));
    assert_eq!(pool.create_layer_texture(1, 3841, 1, 3), Err(TextureError::InvalidDimensions(3841, 1)));
    assert_eq!(pool.get_layer_texture(1).unwrap().id, held.texture_id);
    assert_eq!(pool.get_memory_stats(), before);
}

#[test]
fn a_layer_gets_its_new_texture_before_it_gives_up_the_old_one() {
    let mut pool = TextureManager::new();
    pool.set_memory_limit(2048);
    let first = pool.create_layer_texture(1, 16, 16, 1).unwrap();
    // The same size again: the old texture is still in use, so a second one is made.
    let second = pool.create_layer_texture(1, 16, 16, 2).unwrap();
    assert_eq!(second, Acquired { texture_id: 2, reused: false });
    assert_eq!(pool.get_layer_texture(1).unwrap().id, second.texture_id);
    assert!(pool.contains_texture(first.texture_id));
    assert_eq!(pool.get_memory_stats(), (2048, 2048, 1, 2));
    // Now the first is idle and is taken again.
    let third = pool.create_layer_texture(1, 16, 16, 3).unwrap();
    assert_eq!(third, Acquired { texture_id: first.texture_id, reused: true });
    assert_eq!(pool.get_memory_stats(), (2048, 2048, 1, 2));
}

#[test]
fn read_back_goes_through_padded_rows() {
    let mut pool = TextureManager::new();
    assert_eq!(pool.readback_layout(3), Err(TextureError::TextureNotFound("3".to_string())));
    let a = pool.create_layer_texture(3, 65, 7, 0).unwrap();
    let layout = pool.readback_layout(3).unwrap();
    assert_eq!(layout.texture_id, a.texture_id);
    assert_eq!((layout.width, layout.height), (65, 7));
    assert_eq!(layout.padded_bytes_per_row, 512);
    assert_eq!(layout.buffer_size, 3584);
    let b = pool.create_layer_texture(4, 3840, 2160, 0).unwrap();
    let layout = pool.readback_layout(4).unwrap();
    assert_eq!(layout.texture_id, b.texture_id);
    assert_eq!(layout.padded_bytes_per_row, 15360);
    assert_eq!(layout.buffer_size, 15360 * 2160);
}

#[test]
fn clearing_a_texture_counts_as_use() {
    let mut pool = TextureManager::new();
    assert_eq!(pool.clear_texture(1, 10), Err(TextureError::TextureNotFound("1".to_string())));
    let a = pool.create_layer_texture(1, 8, 8, 10).unwrap();
    assert_eq!(pool.get_layer_texture(1).unwrap().last_used, 10);
    assert_eq!(pool.clear_texture(1, 900), Ok(a.texture_id));
    let texture = pool.get_layer_texture(1).unwrap();
    assert_eq!(texture.last_used, 900);
    assert!(texture.is_in_use);
    assert_eq!(texture.layer, Some(1));
    assert_eq!(pool.get_memory_stats(), (256, DEFAULT_MEMORY_LIMIT, 1, 1));
}
