use wham_ui::glyph_atlas::AtlasCanvas;

#[test]
fn new_atlas_has_white_texel_and_full_dirty_rect() {
    let atlas = AtlasCanvas::new(8, 4);
    assert_eq!(atlas.width(), 8);
    assert_eq!(atlas.height(), 4);
    assert_eq!(atlas.pixels().len(), 32);
    assert_eq!(atlas.pixels()[0], 255);
    assert!(atlas.pixels()[1..].iter().all(|p| *p == 0));
    assert!(atlas.is_dirty());
    assert_eq!(atlas.dirty_rect(), Some((0, 0, 8, 4)));
}

#[test]
fn shelf_packing_sequence() {
    let mut atlas = AtlasCanvas::new(8, 8);
    // First glyph at the padded origin.
    assert_eq!(atlas.allocate(3, 2), (1, 1, false));
    assert_eq!(atlas.dirty_rect(), Some((0, 0, 8, 8)));
    atlas.mark_clean();
    assert!(!atlas.is_dirty());
    assert_eq!(atlas.dirty_rect(), None);
    // Same row, one texel of padding after the first glyph.
    assert_eq!(atlas.allocate(2, 3), (5, 1, false));
    assert!(atlas.is_dirty());
    assert_eq!(atlas.dirty_rect(), Some((5, 1, 2, 3)));
    // Does not fit on the row: new row below the tallest glyph (3) + padding.
    assert_eq!(atlas.allocate(2, 1), (1, 5, false));
    assert_eq!(atlas.dirty_rect(), Some((1, 1, 6, 5)));
    assert_eq!(atlas.place_glyph(1, 1, &[9]), (4, 5, false));
    assert_eq!(atlas.pixels()[5 * 8 + 4], 9);
    // Does not fit below: the atlas is wiped and packing restarts.
    assert_eq!(atlas.allocate(1, 3), (1, 1, true));
    assert!(atlas.pixels().iter().all(|p| *p == 0));
    assert_eq!(atlas.dirty_rect(), Some((0, 0, 8, 8)));
}

#[test]
fn glyph_rows_land_in_place() {
    let mut atlas = AtlasCanvas::new(4, 4);
    assert_eq!(atlas.place_glyph(2, 2, &[1, 2, 3, 4]), (1, 1, false));
    let p = atlas.pixels();
    assert_eq!(p[0], 255);
    assert_eq!(&p[4..8], &[0, 1, 2, 0]);
    assert_eq!(&p[8..12], &[0, 3, 4, 0]);
    assert_eq!(&p[12..16], &[0, 0, 0, 0]);
}

#[test]
fn place_glyph_allocates_and_copies() {
    let mut atlas = AtlasCanvas::new(8, 8);
    atlas.mark_clean();
    let (x, y, _) = atlas.place_glyph(2, 2, &[10, 20, 30, 40]);
    assert_eq!((x, y), (1, 1));
    let (x2, y2, _) = atlas.place_glyph(3, 1, &[5, 6, 7]);
    assert_eq!((x2, y2), (4, 1));
    let p = atlas.pixels();
    assert_eq!(&p[8 + 1..8 + 3], &[10, 20]);
    assert_eq!(&p[16 + 1..16 + 3], &[30, 40]);
    assert_eq!(&p[8 + 4..8 + 7], &[5, 6, 7]);
    assert_eq!(atlas.dirty_rect(), Some((1, 1, 6, 2)));
}

#[test]
fn empty_glyph_takes_one_texel() {
    let mut atlas = AtlasCanvas::new(8, 8);
    assert_eq!(atlas.place_glyph(0, 0, &[]), (1, 1, false));
    assert_eq!(atlas.allocate(1, 1), (3, 1, false));
}

#[test]
fn reset_restores_fresh_state() {
    let mut atlas = AtlasCanvas::new(4, 4);
    atlas.place_glyph(2, 1, &[7, 7]);
    atlas.allocate(1, 1);
    atlas.mark_clean();
    atlas.reset();
    assert_eq!(atlas.pixels()[0], 255);
    assert!(atlas.pixels()[1..].iter().all(|p| *p == 0));
    assert!(atlas.is_dirty());
    assert_eq!(atlas.dirty_rect(), Some((0, 0, 4, 4)));
    assert_eq!(atlas.allocate(1, 1), (1, 1, false));
}

#[test]
fn invalidate_marks_everything_dirty_but_keeps_packing() {
    let mut atlas = AtlasCanvas::new(8, 8);
    atlas.allocate(2, 2);
    atlas.mark_clean();
    atlas.invalidate();
    assert!(atlas.is_dirty());
    assert_eq!(atlas.dirty_rect(), Some((0, 0, 8, 8)));
    assert_eq!(atlas.allocate(2, 2), (4, 1, false));
}

#[test]
fn texels_outside_dirty_rect_are_unchanged_since_upload() {
    let mut atlas = AtlasCanvas::new(8, 8);
    atlas.place_glyph(3, 2, &[1, 2, 3, 4, 5, 6]);
    atlas.mark_clean();
    let uploaded = atlas.pixels().to_vec();
    atlas.place_glyph(2, 2, &[7, 8, 9, 10]);
    atlas.place_glyph(1, 3, &[11, 12, 13]);
    let (dx, dy, dw, dh) = atlas.dirty_rect().expect("dirty after placing glyphs");
    for py in 0..8u32 {
        for px in 0..8u32 {
            let inside = dx <= px && px < dx + dw && dy <= py && py < dy + dh;
            if !inside {
                let i = (py * 8 + px) as usize;
                assert_eq!(atlas.pixels()[i], uploaded[i]);
            }
        }
    }
}

#[test]
fn glyph_one_texel_short_of_the_atlas_fits() {
    // As wide as the atlas minus its left margin: a new row starts at x = 1.
    let mut atlas = AtlasCanvas::new(4, 4);
    assert_eq!(atlas.place_glyph(3, 1, &[1, 2, 3]), (1, 2, false));
    assert_eq!(&atlas.pixels()[8..12], &[0, 1, 2, 3]);
    // As tall as the atlas minus its top margin: the atlas is wiped (texel 0
    // too) and the glyph goes to (1, 1).
    let mut atlas = AtlasCanvas::new(4, 4);
    assert_eq!(atlas.place_glyph(1, 3, &[4, 5, 6]), (1, 1, true));
    assert_eq!(atlas.pixels()[0], 0);
    assert_eq!(atlas.pixels()[5], 4);
    assert_eq!(atlas.pixels()[9], 5);
    assert_eq!(atlas.pixels()[13], 6);
}
