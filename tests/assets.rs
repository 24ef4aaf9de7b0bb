use taika::asset_management::{DiskAsset, MemoryAsset, ResolvableAsset};

#[test]
fn memory_asset_resolves_to_its_data() {
    let asset = MemoryAsset::new(vec![1, 2, 3], "blob");
    assert_eq!(asset.resolve(), vec![1, 2, 3]);
    assert_eq!(asset.get_name(), "blob");
}

#[test]
fn empty_memory_asset() {
    let asset = MemoryAsset::new(Vec::new(), "");
    assert!(asset.resolve().is_empty());
}

#[test]
fn disk_asset_is_named_by_its_path() {
    let asset = DiskAsset::new("shaders/main.wgsl");
    assert_eq!(asset.get_name(), "shaders/main.wgsl");
}
