use kinegraph::renderer::{unpad_rows, OffscreenRenderError, OffscreenRenderer, ROW_ALIGNMENT};

#[test]
fn test_renderer_resize() {
    let mut renderer = OffscreenRenderer::new(800, 600).expect("renderer");

    assert_eq!(renderer.dimensions(), (800, 600));

    let result = renderer.resize(1024, 768);
    assert!(result.is_ok(), "{:?}", result.err());
    assert_eq!(renderer.dimensions(), (1024, 768));

    let result = renderer.resize(0, 100);
    assert!(result.is_err());
}

#[test]
fn test_offscreen_renderer_creation() {
    let renderer = OffscreenRenderer::new(800, 600);
    assert!(renderer.is_ok(), "{:?}", renderer.err());
    let renderer = renderer.unwrap();
    assert_eq!(renderer.dimensions(), (800, 600));
}

#[test]
fn offscreen_renderer_test_test_invalid_dimensions() {
    let result = OffscreenRenderer::new(0, 0);
    assert!(result.is_err());

    let result = OffscreenRenderer::new(4000, 3000);
    assert!(result.is_err());
}

#[test]
fn test_4k_resolution() {
    let renderer = OffscreenRenderer::new(3840, 2160);
    assert!(renderer.is_ok(), "{:?}", renderer.err());
    let renderer = renderer.unwrap();
    assert_eq!(renderer.dimensions(), (3840, 2160));
}

#[test]
fn rows_are_padded_to_the_alignment() {
    assert_eq!(ROW_ALIGNMENT, wgpu::COPY_BYTES_PER_ROW_ALIGNMENT);
    assert_eq!(OffscreenRenderer::new(16, 1).unwrap().padded_bytes_per_row, 256);
    assert_eq!(OffscreenRenderer::new(64, 1).unwrap().padded_bytes_per_row, 256);
    assert_eq!(OffscreenRenderer::new(65, 1).unwrap().padded_bytes_per_row, 512);
    assert_eq!(OffscreenRenderer::new(100, 100).unwrap().padded_bytes_per_row, 512);
    assert_eq!(OffscreenRenderer::new(800, 600).unwrap().padded_bytes_per_row, 3328);
    assert_eq!(OffscreenRenderer::new(3840, 2160).unwrap().padded_bytes_per_row, 15360);
    assert_eq!(OffscreenRenderer::new(100, 100).unwrap().buffer_size(), 51200);
}

#[test]
fn a_failed_resize_changes_nothing() {
    let mut renderer = OffscreenRenderer::new(800, 600).unwrap();
    renderer.mark_initialized();
    assert!(renderer.initialized);
    assert_eq!(renderer.resize(3841, 10), Err(OffscreenRenderError::InvalidDimensions(3841, 10)));
    assert_eq!(renderer.resize(10, 2161), Err(OffscreenRenderError::InvalidDimensions(10, 2161)));
    assert_eq!(
        renderer,
        OffscreenRenderer { width: 800, height: 600, padded_bytes_per_row: 3328, initialized: true }
    );
    assert_eq!(renderer.resize(1024, 768), Ok(()));
    assert_eq!(
        renderer,
        OffscreenRenderer { width: 1024, height: 768, padded_bytes_per_row: 4096, initialized: false }
    );
}

#[test]
fn offscreen_errors_have_their_messages() {
    assert_eq!(OffscreenRenderError::InvalidDimensions(0, 7).to_string(), "無効な寸法です: 0x7");
    assert_eq!(OffscreenRenderError::QueueNotInitialized.to_string(), "wgpu Queue が初期化されていません");
    assert_eq!(OffscreenRenderError::DeviceNotInitialized.to_string(), "wgpu Device が初期化されていません");
    assert_eq!(
        OffscreenRenderError::RenderingFailed("r".to_string()).to_string(),
        "レンダリングに失敗しました: r"
    );
    assert_eq!(
        OffscreenRenderError::TextureCreationFailed("t".to_string()).to_string(),
        "テクスチャ作成に失敗しました: t"
    );
    assert_eq!(
        OffscreenRenderError::BufferCreationFailed("b".to_string()).to_string(),
        "バッファ作成に失敗しました: b"
    );
    assert_eq!(
        OffscreenRenderError::BufferReadFailed("f".to_string()).to_string(),
        "バッファ読み取りに失敗しました: f"
    );
}

#[test]
fn padding_is_taken_out_of_rows() {
    // Two pixels wide, three rows, twelve bytes from row to row.
    let mut mapped = Vec::new();
    for y in 0..3u8 {
        for k in 0..8u8 {
            mapped.push(10 * y + k);
        }
        mapped.extend_from_slice(&[99, 99, 99, 99]);
    }
    assert_eq!(
        unpad_rows(&mapped, 2, 3, 12),
        vec![0, 1, 2, 3, 4, 5, 6, 7, 10, 11, 12, 13, 14, 15, 16, 17, 20, 21, 22, 23, 24, 25, 26, 27]
    );
    assert_eq!(unpad_rows(&mapped, 2, 3, 8), mapped[0..24].to_vec());
    assert_eq!(unpad_rows(&mapped, 3, 1, 12), mapped[0..12].to_vec());
    assert_eq!(unpad_rows(&mapped, 0, 3, 12), Vec::<u8>::new());
    assert_eq!(unpad_rows(&mapped, 2, 0, 12), Vec::<u8>::new());
    let target = OffscreenRenderer::new(65, 2).unwrap();
    let buffer = vec![7u8; target.buffer_size() as usize];
    assert_eq!(unpad_rows(&buffer, 65, 2, target.padded_bytes_per_row), vec![7u8; 520]);
}
