use kinegraph::types::DirtyRegion;

#[test]
fn test_dirty_region_merge() {
    let r1 = DirtyRegion { x: 10, y: 10, width: 20, height: 20 };
    let r2 = DirtyRegion { x: 20, y: 20, width: 30, height: 30 };
    let merged = r1.merge(&r2);

    assert_eq!(merged.x, 10);
    assert_eq!(merged.y, 10);
    assert_eq!(merged.width, 40);
    assert_eq!(merged.height, 40);
}
