use wham_ui::icon_atlas::{IconAtlas, IconEntry, IconPack};

fn pack_with_one() -> IconPack {
    IconPack {
        entries: vec![IconEntry { name: "check".to_string(), x: 0, y: 0, width: 1, height: 1 }],
    }
}

#[test]
fn new_atlas_is_empty_and_clean() {
    let atlas = IconAtlas::new();
    assert_eq!(atlas.width(), 0);
    assert_eq!(atlas.height(), 0);
    assert!(atlas.pixels().is_empty());
    assert!(!atlas.is_dirty());
    assert!(!atlas.is_loaded());
    assert!(atlas.pack().entries.is_empty());
}

#[test]
fn load_sets_pixels_and_marks_dirty() {
    let mut atlas = IconAtlas::new();
    atlas.load(vec![1, 2, 3, 4, 5, 6, 7, 8], 2, 1, pack_with_one());
    assert_eq!(atlas.width(), 2);
    assert_eq!(atlas.height(), 1);
    assert_eq!(atlas.pixels(), &[1, 2, 3, 4, 5, 6, 7, 8]);
    assert!(atlas.is_dirty());
    assert!(atlas.is_loaded());
    assert_eq!(atlas.pack().entries.len(), 1);
    assert_eq!(atlas.pack().entries[0].name, "check");
}

#[test]
fn mark_clean_then_invalidate() {
    let mut atlas = IconAtlas::new();
    atlas.load(vec![0; 4], 1, 1, IconPack::default());
    atlas.mark_clean();
    assert!(!atlas.is_dirty());
    atlas.invalidate_gpu_cache();
    assert!(atlas.is_dirty());
}

#[test]
fn invalidate_without_pixels_stays_clean() {
    let mut atlas = IconAtlas::new();
    atlas.invalidate_gpu_cache();
    assert!(!atlas.is_dirty());
}

#[test]
fn loading_an_empty_sheet_is_not_loaded() {
    let mut atlas = IconAtlas::new();
    atlas.load(Vec::new(), 0, 7, IconPack::empty());
    assert!(atlas.is_dirty());
    assert!(!atlas.is_loaded());
}

#[test]
fn pixels_always_fill_the_sheet() {
    let mut atlas = IconAtlas::new();
    assert_eq!(atlas.pixels().len(), 0);
    atlas.load(vec![1; 2 * 3 * 4], 2, 3, IconPack::empty());
    assert_eq!(atlas.pixels().len(), (atlas.width() * atlas.height() * 4) as usize);
    atlas.mark_clean();
    atlas.invalidate_gpu_cache();
    assert_eq!(atlas.pixels().len(), 24);
}

#[test]
fn dirty_follows_the_calls_since_the_last_clean() {
    let mut atlas = IconAtlas::new();
    assert!(!atlas.is_dirty());
    atlas.invalidate_gpu_cache();
    assert!(!atlas.is_dirty());
    atlas.load(vec![0; 4], 1, 1, IconPack::empty());
    assert!(atlas.is_dirty());
    atlas.mark_clean();
    assert!(!atlas.is_dirty());
    atlas.invalidate_gpu_cache();
    assert!(atlas.is_dirty());
}
