//! Pixel surface and shelf allocator of the glyph atlas.
//!
//! The atlas is a single-channel (R8) texture.  Glyph bitmaps are packed in
//! rows ("shelves") from the top-left corner, one texel of padding between
//! neighbours.  When a glyph does not fit on the current row the allocator
//! starts a new row below the tallest glyph of the current one; when it does
//! not fit below either, the whole atlas is wiped and packing restarts at the
//! top.  A dirty flag and a dirty rectangle tell the renderer which part of the
//! texture must be re-uploaded.
//!
//! `new` and `reset` make texel 0 white so that solid quads can sample it;
//! a wipe clears it along with the rest, and the caller that learns of the
//! wipe is the one to drop its cached glyph positions.
use vstd::prelude::*;

verus! {

/// A rectangle of texels: `(x, y, width, height)`.
pub type Region = (int, int, int, int);

/// Two regions do not share a texel.
pub open spec fn regions_disjoint(a: Region, b: Region) -> bool {
    a.0 + a.2 <= b.0 || b.0 + b.2 <= a.0 || a.1 + a.3 <= b.1 || b.1 + b.3 <= a.1
}

pub open spec fn min_int(a: int, b: int) -> int {
    if a <= b { a } else { b }
}

pub open spec fn max_int(a: int, b: int) -> int {
    if a >= b { a } else { b }
}

/// The dirty rectangle after a region `(x, y, w, h)` was written: the
/// bounding box of the previous dirty rectangle (if any) and the region.
pub open spec fn grow_dirty(d: Option<(u32, u32, u32, u32)>, x: int, y: int, w: int, h: int) -> (int, int, int, int) {
    match d {
        None => (x, y, w, h),
        Some((rx, ry, rw, rh)) => {
            let x1 = min_int(rx as int, x);
            let y1 = min_int(ry as int, y);
            let x2 = max_int(rx + rw, x + w);
            let y2 = max_int(ry + rh, y + h);
            (x1, y1, x2 - x1, y2 - y1)
        },
    }
}

/// A region starts at or after texel (1, 1) and has no negative extent.
pub open spec fn region_well_placed(r: Region) -> bool {
    r.0 >= 1 && r.1 >= 1 && r.2 >= 0 && r.3 >= 0
}

/// `v`, or 1 if `v` is zero: glyphs take at least one texel each way.
pub open spec fn at_least_one(v: u32) -> int {
    if v >= 1 { v as int } else { 1 }
}

/// Texel `(px, py)` lies inside the rectangle `d` (never, without one).
pub open spec fn in_rect(d: Option<(u32, u32, u32, u32)>, px: int, py: int) -> bool {
    match d {
        Some(r) => r.0 <= px < r.0 + r.2 && r.1 <= py < r.1 + r.3,
        None => false,
    }
}

/// Texel `(px, py)` of a row-major surface of the given width.
pub open spec fn texel(pixels: Seq<u8>, width: int, px: int, py: int) -> u8 {
    pixels[py * width + px]
}

/// The pixel surface and shelf allocator of a glyph atlas.
pub struct AtlasCanvas {
    width: u32,
    height: u32,
    pixels: Vec<u8>,
    cursor_x: u64,
    cursor_y: u64,
    row_h: u64,
    dirty: bool,
    dirty_rect: Option<(u32, u32, u32, u32)>,
    /// Regions handed out since the atlas was last wiped.
    placed: Ghost<Seq<Region>>,
    /// The texels as they were at the last `mark_clean()`.
    clean: Ghost<Seq<u8>>,
}

impl AtlasCanvas {
    pub closed spec fn spec_width(&self) -> int {
        self.width as int
    }

    pub closed spec fn spec_height(&self) -> int {
        self.height as int
    }

    pub closed spec fn spec_pixels(&self) -> Seq<u8> {
        self.pixels@
    }

    /// Where the next glyph goes if it fits on the current row.
    pub closed spec fn spec_cursor(&self) -> (int, int) {
        (self.cursor_x as int, self.cursor_y as int)
    }

    /// Height of the tallest glyph on the current row.
    pub closed spec fn spec_row_height(&self) -> int {
        self.row_h as int
    }

    pub closed spec fn spec_dirty(&self) -> bool {
        self.dirty
    }

    pub closed spec fn spec_dirty_rect(&self) -> Option<(u32, u32, u32, u32)> {
        self.dirty_rect
    }

    /// The texels as they were when the texture was last uploaded
    /// (`mark_clean()`).
    pub closed spec fn spec_clean_pixels(&self) -> Seq<u8> {
        self.clean@
    }

    /// Every texel that differs from its value at the last upload lies inside
    /// the dirty rectangle; a clean atlas has no dirty rectangle.
    pub open spec fn tracks_changes(&self) -> bool {
        &&& (!self.spec_dirty() ==> self.spec_dirty_rect() is None)
        &&& self.spec_clean_pixels().len() == self.spec_pixels().len()
        &&& forall|px: int, py: int|
            0 <= px < self.spec_width() && 0 <= py < self.spec_height() && !in_rect(self.spec_dirty_rect(), px, py)
                ==> #[trigger] texel(self.spec_pixels(), self.spec_width(), px, py) == texel(
                self.spec_clean_pixels(),
                self.spec_width(),
                px,
                py,
            )
    }

    /// The regions handed out since the atlas was last wiped, oldest first.
    pub closed spec fn spec_placed(&self) -> Seq<Region> {
        self.placed@
    }

    /// Region `r` ends above the row that starts at `cursor`, or sits on that
    /// row left of the cursor and no taller than the row.
    pub open spec fn on_finished_row_or_left_of_cursor(r: Region, cursor: (int, int), row_height: int) -> bool {
        ||| r.1 + r.3 < cursor.1
        ||| (r.1 == cursor.1 && r.0 + r.2 < cursor.0 && r.3 <= row_height)
    }

    /// Every placed region starts at or after (1, 1) and either ends above the
    /// current row, or sits on the current row left of the cursor and no
    /// taller than the row.
    pub open spec fn shelf_order(&self) -> bool {
        forall|i: int| 0 <= i < self.spec_placed().len() ==> Self::on_finished_row_or_left_of_cursor(
            #[trigger] self.spec_placed()[i],
            self.spec_cursor(),
            self.spec_row_height(),
        ) && region_well_placed(self.spec_placed()[i])
    }

    /// No two placed regions share a texel.
    pub open spec fn placed_disjoint(&self) -> bool {
        forall|i: int, j: int|
            0 <= i < self.spec_placed().len() && 0 <= j < self.spec_placed().len() && i != j
                ==> regions_disjoint(#[trigger] self.spec_placed()[i], #[trigger] self.spec_placed()[j])
    }

    /// The atlas invariant.
    pub open spec fn wf(&self) -> bool {
        &&& self.spec_width() * self.spec_height() <= u32::MAX
        &&& self.spec_width() >= 1
        &&& self.spec_height() >= 1
        &&& self.spec_pixels().len() == self.spec_width() * self.spec_height()
        &&& self.spec_pixels().len() >= 1
        &&& 1 <= self.spec_cursor().0 <= 0x2_0000_0001
        &&& 1 <= self.spec_cursor().1 <= u32::MAX
        &&& 0 <= self.spec_row_height() <= u32::MAX
        &&& (self.spec_dirty_rect() matches Some(d) ==> d.0 + d.2 <= u32::MAX && d.1 + d.3 <= u32::MAX)
        &&& self.shelf_order()
        &&& self.placed_disjoint()
        &&& self.tracks_changes()
    }

    /// Whether a `w`-wide glyph no longer fits on the current row.
    pub open spec fn spec_row_full(&self, w: int) -> bool {
        self.spec_cursor().0 + w + 1 > self.spec_width()
    }

    /// The row the next `w`-wide glyph goes on, before the height check:
    /// `(x, y, row height)`.
    pub open spec fn spec_row_slot(&self, w: int) -> (int, int, int) {
        if self.spec_row_full(w) {
            (1, self.spec_cursor().1 + self.spec_row_height() + 1, 0)
        } else {
            (self.spec_cursor().0, self.spec_cursor().1, self.spec_row_height())
        }
    }

    /// Whether placing a `w` by `h` glyph wipes the atlas.
    pub open spec fn spec_wipes(&self, w: int, h: int) -> bool {
        self.spec_row_slot(w).1 + h + 1 > self.spec_height()
    }

    /// Where a `w` by `h` glyph is placed.
    pub open spec fn spec_place(&self, w: int, h: int) -> (int, int) {
        if self.spec_wipes(w, h) {
            (1, 1)
        } else {
            (self.spec_row_slot(w).0, self.spec_row_slot(w).1)
        }
    }

    /// Creates an atlas of `width` by `height` texels, all black but texel 0,
    /// which is white.  The whole texture is dirty.
    pub fn new(width: u32, height: u32) -> (res: AtlasCanvas)
        requires
            width as int * height as int <= u32::MAX,
            width >= 1,
            height >= 1,
        ensures
            res.wf(),
            res.spec_width() == width,
            res.spec_height() == height,
            res.spec_pixels()[0] == 255,
            forall|i: int| 1 <= i < res.spec_pixels().len() ==> res.spec_pixels()[i] == 0,
            res.spec_cursor() == (1int, 1int),
            res.spec_row_height() == 0,
            res.spec_dirty(),
            res.spec_dirty_rect() == Some((0u32, 0u32, width, height)),
            res.spec_placed().len() == 0,
    {
        assert(width as int * height as int >= 1) by (nonlinear_arith)
            requires
                width >= 1,
                height >= 1,
        ;
        let n = (width * height) as usize;
        let mut pixels: Vec<u8> = Vec::with_capacity(n);
        let mut i: usize = 0;
        while i < n
            invariant
                i <= n,
                pixels@.len() == i,
                forall|j: int| 0 <= j < i ==> pixels@[j] == 0,
            decreases n - i,
        {
            pixels.push(0u8);
            i = i + 1;
        }
        pixels.set(0, 255u8);
        let ghost snapshot = pixels@;
        AtlasCanvas {
            width,
            height,
            pixels,
            cursor_x: 1,
            cursor_y: 1,
            row_h: 0,
            dirty: true,
            dirty_rect: Some((0, 0, width, height)),
            placed: Ghost(Seq::empty()),
            clean: Ghost(snapshot),
        }
    }

    /// Clears the atlas for a new primary font: all texels black but texel 0,
    /// packing restarts at the top-left, the whole texture is dirty.
    pub fn reset(&mut self)
        requires
            old(self).wf(),
        ensures
            final(self).wf(),
            final(self).spec_width() == old(self).spec_width(),
            final(self).spec_height() == old(self).spec_height(),
            final(self).spec_pixels().len() == old(self).spec_pixels().len(),
            final(self).spec_pixels()[0] == 255,
            forall|i: int| 1 <= i < final(self).spec_pixels().len() ==> final(self).spec_pixels()[i] == 0,
            final(self).spec_cursor() == (1int, 1int),
            final(self).spec_row_height() == 0,
            final(self).spec_dirty(),
            final(self).spec_dirty_rect() == Some((0u32, 0u32, old(self).spec_width() as u32, old(self).spec_height() as u32)),
            final(self).spec_placed().len() == 0,
    {
        self.fill_black();
        self.pixels.set(0, 255u8);
        self.cursor_x = 1;
        self.cursor_y = 1;
        self.row_h = 0;
        self.dirty = true;
        self.dirty_rect = Some((0, 0, self.width, self.height));
        self.placed = Ghost(Seq::empty());
        self.clean = Ghost(self.pixels@);
    }

    /// Marks the whole texture dirty without touching its texels or the
    /// packing state (used when the glyph cache is invalidated).
    pub fn invalidate(&mut self)
        requires
            old(self).wf(),
        ensures
            final(self).wf(),
            final(self).spec_width() == old(self).spec_width(),
            final(self).spec_height() == old(self).spec_height(),
            final(self).spec_pixels() == old(self).spec_pixels(),
            final(self).spec_cursor() == old(self).spec_cursor(),
            final(self).spec_row_height() == old(self).spec_row_height(),
            final(self).spec_placed() == old(self).spec_placed(),
            final(self).spec_dirty(),
            final(self).spec_dirty_rect() == Some((0u32, 0u32, old(self).spec_width() as u32, old(self).spec_height() as u32)),
    {
        self.dirty = true;
        self.dirty_rect = Some((0, 0, self.width, self.height));
        proof {
            lemma_wf_frame(*old(self), *self);
        }
    }

    /// Sets every texel to zero.
    fn fill_black(&mut self)
        ensures
            final(self).spec_pixels().len() == old(self).spec_pixels().len(),
            forall|i: int| 0 <= i < final(self).spec_pixels().len() ==> final(self).spec_pixels()[i] == 0,
            final(self).width == old(self).width,
            final(self).height == old(self).height,
            final(self).cursor_x == old(self).cursor_x,
            final(self).cursor_y == old(self).cursor_y,
            final(self).row_h == old(self).row_h,
            final(self).dirty == old(self).dirty,
            final(self).dirty_rect == old(self).dirty_rect,
            final(self).placed == old(self).placed,
            final(self).clean == old(self).clean,
    {
        let n = self.pixels.len();
        let mut i: usize = 0;
        while i < n
            invariant
                i <= n,
                n == self.pixels@.len(),
                self.width == old(self).width,
                self.height == old(self).height,
                self.cursor_x == old(self).cursor_x,
                self.cursor_y == old(self).cursor_y,
                self.row_h == old(self).row_h,
                self.dirty == old(self).dirty,
                self.dirty_rect == old(self).dirty_rect,
                self.placed == old(self).placed,
                self.clean == old(self).clean,
                forall|j: int| 0 <= j < i ==> self.pixels@[j] == 0,
            decreases n - i,
        {
            self.pixels.set(i, 0u8);
            i = i + 1;
        }
    }

    /// Reserves a `w` by `h` region and returns its top-left corner.
    ///
    /// The region goes right of the previous one on the current row, one texel
    /// apart.  If it would cross the right edge, a new row starts one texel
    /// below the tallest glyph of the current row, at x = 1.  If it would then
    /// cross the bottom edge, every texel is cleared (texel 0 included), the
    /// whole texture becomes dirty, and the region goes to (1, 1).  The dirty
    /// rectangle grows to cover the region.  The third component tells whether
    /// the atlas was wiped, so that every region handed out before is gone.
    pub fn allocate(&mut self, w: u32, h: u32) -> (res: (u32, u32, bool))
        requires
            old(self).wf(),
            w < u32::MAX,
            h < u32::MAX,
        ensures
            final(self).wf(),
            res.0 as int == old(self).spec_place(w as int, h as int).0,
            res.1 as int == old(self).spec_place(w as int, h as int).1,
            res.2 == old(self).spec_wipes(w as int, h as int),
            final(self).spec_width() == old(self).spec_width(),
            final(self).spec_height() == old(self).spec_height(),
            final(self).spec_cursor() == (res.0 + w + 1, res.1 as int),
            final(self).spec_row_height() == max_int(
                if old(self).spec_wipes(w as int, h as int) { 0 } else { old(self).spec_row_slot(w as int).2 },
                h as int,
            ),
            final(self).spec_dirty(),
            ({
                let d = final(self).spec_dirty_rect()->0;
                &&& final(self).spec_dirty_rect() is Some
                &&& (d.0 as int, d.1 as int, d.2 as int, d.3 as int) == grow_dirty(
                    if old(self).spec_wipes(w as int, h as int) {
                        Some((0u32, 0u32, old(self).spec_width() as u32, old(self).spec_height() as u32))
                    } else {
                        old(self).spec_dirty_rect()
                    },
                    res.0 as int,
                    res.1 as int,
                    w as int,
                    h as int,
                )
            }),
            old(self).spec_wipes(w as int, h as int) ==> {
                &&& final(self).spec_pixels().len() == old(self).spec_pixels().len()
                &&& forall|i: int| 0 <= i < final(self).spec_pixels().len() ==> final(self).spec_pixels()[i] == 0
                &&& final(self).spec_placed() == seq![(res.0 as int, res.1 as int, w as int, h as int)]
            },
            !old(self).spec_wipes(w as int, h as int) ==> {
                &&& final(self).spec_pixels() == old(self).spec_pixels()
                &&& final(self).spec_placed() == old(self).spec_placed().push(
                    (res.0 as int, res.1 as int, w as int, h as int),
                )
            },
    {
        let ghost pre = *self;
        let padding: u64 = 1;
        let wide = w as u64;
        let tall = h as u64;
        if self.cursor_x + wide + padding > self.width as u64 {
            self.cursor_x = 1;
            self.cursor_y = self.cursor_y + self.row_h + padding;
            self.row_h = 0;
        }
        let wipes = self.cursor_y + tall + padding > self.height as u64;
        if wipes {
            self.cursor_x = 1;
            self.cursor_y = 1;
            self.row_h = 0;
            self.fill_black();
            self.dirty_rect = Some((0, 0, self.width, self.height));
        }
        proof {
            assert(wipes == pre.spec_wipes(w as int, h as int));
            assert(self.cursor_x as int == pre.spec_place(w as int, h as int).0);
            assert(self.cursor_y as int == pre.spec_place(w as int, h as int).1);
            if !wipes {
                assert(self.cursor_y + h + 1 <= self.height);
            }
        }
        let x = self.cursor_x as u32;
        let y = self.cursor_y as u32;
        self.cursor_x = self.cursor_x + wide + padding;
        if tall > self.row_h {
            self.row_h = tall;
        }
        self.dirty = true;
        let new_rect = match self.dirty_rect {
            None => (x, y, w, h),
            Some((rx, ry, rw, rh)) => {
                let x1 = if rx < x { rx } else { x };
                let y1 = if ry < y { ry } else { y };
                let x2 = if rx + rw > x + w { rx + rw } else { x + w };
                let y2 = if ry + rh > y + h { ry + rh } else { y + h };
                (x1, y1, x2 - x1, y2 - y1)
            },
        };
        self.dirty_rect = Some(new_rect);
        let ghost region: Region = (x as int, y as int, w as int, h as int);
        proof {
            if wipes {
                self.placed = Ghost(seq![region]);
            } else {
                let old_placed = pre.spec_placed();
                assert forall|i: int| 0 <= i < old_placed.len() implies regions_disjoint(
                    #[trigger] old_placed[i],
                    region,
                ) by {
                    assert(Self::on_finished_row_or_left_of_cursor(old_placed[i], pre.spec_cursor(), pre.spec_row_height()));
                }
                self.placed = Ghost(old_placed.push(region));
                assert forall|i: int| 0 <= i < self.spec_placed().len() implies Self::on_finished_row_or_left_of_cursor(
                    #[trigger] self.spec_placed()[i],
                    self.spec_cursor(),
                    self.spec_row_height(),
                ) && region_well_placed(self.spec_placed()[i]) by {
                    if i < old_placed.len() {
                        assert(self.spec_placed()[i] == old_placed[i]);
                        assert(Self::on_finished_row_or_left_of_cursor(old_placed[i], pre.spec_cursor(), pre.spec_row_height()));
                    }
                }
                assert forall|i: int, j: int|
                    0 <= i < self.spec_placed().len() && 0 <= j < self.spec_placed().len() && i != j
                    implies regions_disjoint(
                    #[trigger] self.spec_placed()[i],
                    #[trigger] self.spec_placed()[j],
                ) by {
                    if i < old_placed.len() && j < old_placed.len() {
                        assert(regions_disjoint(old_placed[i], old_placed[j]));
                    } else if i < old_placed.len() {
                        assert(regions_disjoint(old_placed[i], region));
                    } else {
                        assert(regions_disjoint(old_placed[j], region));
                    }
                }
            }
        }
        (x, y, wipes)
    }

    /// Copies a `w` by `h` glyph bitmap (row-major, `w` bytes per row) into the
    /// atlas with its top-left corner at `(x, y)`.  Texels outside the
    /// rectangle are left unchanged.
    fn blit(&mut self, x: u32, y: u32, w: u32, h: u32, bitmap: &[u8])
        requires
            old(self).wf(),
            x as int + w as int <= old(self).spec_width(),
            y as int + h as int <= old(self).spec_height(),
            bitmap@.len() >= w as int * h as int,
            old(self).spec_dirty_rect() matches Some(d) && d.0 <= x && x + w <= d.0 + d.2 && d.1 <= y && y + h <= d.1
                + d.3,
        ensures
            final(self).wf(),
            final(self).spec_width() == old(self).spec_width(),
            final(self).spec_height() == old(self).spec_height(),
            final(self).spec_cursor() == old(self).spec_cursor(),
            final(self).spec_row_height() == old(self).spec_row_height(),
            final(self).spec_placed() == old(self).spec_placed(),
            final(self).spec_dirty() == old(self).spec_dirty(),
            final(self).spec_dirty_rect() == old(self).spec_dirty_rect(),
            final(self).spec_pixels().len() == old(self).spec_pixels().len(),
            forall|px: int, py: int|
                0 <= px < old(self).spec_width() && 0 <= py < old(self).spec_height() ==> #[trigger] texel(
                    final(self).spec_pixels(),
                    old(self).spec_width(),
                    px,
                    py,
                ) == if x <= px < x + w && y <= py < y + h {
                    bitmap@[(py - y) * w + (px - x)]
                } else {
                    texel(old(self).spec_pixels(), old(self).spec_width(), px, py)
                },
    {
        let ghost width = self.width as int;
        let ghost old_pixels = self.pixels@;
        let ghost wh = width * (self.height as int);
        let blen = bitmap.len();
        let mut row: u32 = 0;
        while row < h
            invariant
                old(self).wf(),
                row <= h,
                self.width == old(self).width,
                self.height == old(self).height,
                self.cursor_x == old(self).cursor_x,
                self.cursor_y == old(self).cursor_y,
                self.row_h == old(self).row_h,
                self.dirty == old(self).dirty,
                self.dirty_rect == old(self).dirty_rect,
                self.placed == old(self).placed,
                self.clean == old(self).clean,
                width == self.width as int,
                old_pixels == old(self).spec_pixels(),
                wh == width * (self.height as int),
                self.pixels@.len() == wh,
                x as int + w as int <= width,
                y as int + h as int <= self.height,
                bitmap@.len() >= w as int * h as int,
                blen == bitmap@.len(),
                forall|px: int, py: int|
                    0 <= px < width && 0 <= py < self.height ==> #[trigger] texel(self.pixels@, width, px, py)
                        == if x <= px < x + w && y <= py < y + row {
                        bitmap@[(py - y) * w + (px - x)]
                    } else {
                        texel(old_pixels, width, px, py)
                    },
            decreases h - row,
        {
            proof {
                let hh = self.height as int;
                assert((y + row + 1) * width <= width * hh) by (nonlinear_arith)
                    requires
                        y + row + 1 <= hh,
                        width >= 0,
                ;
                assert((y + row) * width + width == (y + row + 1) * width) by (nonlinear_arith);
                assert((row + 1) * (w as int) <= (w as int) * (h as int)) by (nonlinear_arith)
                    requires
                        row + 1 <= h,
                ;
                assert(row * w + w == (row + 1) * w) by (nonlinear_arith);
                assert((w as int) * (h as int) <= width * hh) by (nonlinear_arith)
                    requires
                        w <= width,
                        h <= hh,
                        w >= 0,
                        h >= 0,
                ;
            }
            let dst: usize = ((y + row) * self.width + x) as usize;
            let src: usize = (row * w) as usize;
            let ghost before = self.pixels@;
            let mut col: u32 = 0;
            while col < w
                invariant
                    old(self).wf(),
                    row < h,
                    col <= w,
                    self.width == old(self).width,
                    self.height == old(self).height,
                    self.cursor_x == old(self).cursor_x,
                    self.cursor_y == old(self).cursor_y,
                    self.row_h == old(self).row_h,
                    self.dirty == old(self).dirty,
                    self.dirty_rect == old(self).dirty_rect,
                    self.placed == old(self).placed,
                    self.clean == old(self).clean,
                    width == self.width as int,
                    wh == width * (self.height as int),
                    self.pixels@.len() == wh,
                    dst == (y + row) * width + x,
                    src == row * w,
                    (y + row + 1) * width <= wh,
                    (y + row) * width + width == (y + row + 1) * width,
                    (row + 1) * w <= w * h,
                    row * w + w == (row + 1) * w,
                    x as int + w as int <= width,
                    bitmap@.len() >= w as int * h as int,
                    blen == bitmap@.len(),
                    forall|px: int, py: int|
                        0 <= px < width && 0 <= py < self.height ==> #[trigger] texel(self.pixels@, width, px, py)
                            == if py == y + row && x <= px < x + col {
                            bitmap@[(py - y) * w + (px - x)]
                        } else {
                            texel(before, width, px, py)
                        },
                decreases w - col,
            {
                let v = bitmap[src + col as usize];
                let ghost prev = self.pixels@;
                self.pixels.set(dst + col as usize, v);
                proof {
                    assert forall|px: int, py: int| 0 <= px < width && 0 <= py < self.height implies #[trigger] texel(
                        self.pixels@,
                        width,
                        px,
                        py,
                    ) == if py == y + row && x <= px < x + col + 1 {
                        bitmap@[(py - y) * w + (px - x)]
                    } else {
                        texel(before, width, px, py)
                    } by {
                        lemma_texel_index_unique(width, px, py, (x + col) as int, (y + row) as int);
                        lemma_texel_in_bounds(width, self.height as int, px, py);
                        assert(texel(prev, width, px, py) == if py == y + row && x <= px < x + col {
                            bitmap@[(py - y) * w + (px - x)]
                        } else {
                            texel(before, width, px, py)
                        });
                        if py == y + row && px == x + col {
                            assert((py - y) * w + (px - x) == src + col);
                        }
                    }
                }
                col = col + 1;
            }
            row = row + 1;
        }
        proof {
            assert forall|px: int, py: int|
                0 <= px < width && 0 <= py < self.height && !in_rect(self.dirty_rect, px, py) implies #[trigger] texel(
                self.pixels@,
                width,
                px,
                py,
            ) == texel(self.clean@, width, px, py) by {
                assert(texel(old_pixels, width, px, py) == texel(old(self).clean@, width, px, py));
            }
            lemma_wf_frame(*old(self), *self);
        }
    }

    /// Copies a freshly rasterized `w` by `h` glyph bitmap into the atlas and
    /// returns where it went: a region of at least one texel in each
    /// direction is allocated, then the bitmap is copied to its corner.  The
    /// third component tells whether the atlas was wiped to make room.
    pub fn place_glyph(&mut self, w: u32, h: u32, bitmap: &[u8]) -> (res: (u32, u32, bool))
        requires
            old(self).wf(),
            at_least_one(w) + 1 <= old(self).spec_width(),
            at_least_one(h) + 1 <= old(self).spec_height(),
            bitmap@.len() >= w as int * h as int,
        ensures
            final(self).wf(),
            res.0 as int == old(self).spec_place(at_least_one(w), at_least_one(h)).0,
            res.1 as int == old(self).spec_place(at_least_one(w), at_least_one(h)).1,
            res.2 == old(self).spec_wipes(at_least_one(w), at_least_one(h)),
            res.0 >= 1,
            res.1 >= 1,
            res.0 as int + w as int <= old(self).spec_width(),
            res.1 as int + h as int <= old(self).spec_height(),
            final(self).spec_dirty(),
            final(self).spec_width() == old(self).spec_width(),
            final(self).spec_height() == old(self).spec_height(),
            final(self).spec_cursor() == (res.0 + at_least_one(w) + 1, res.1 as int),
            final(self).spec_pixels().len() == old(self).spec_pixels().len(),
            forall|px: int, py: int|
                0 <= px < old(self).spec_width() && 0 <= py < old(self).spec_height() ==> #[trigger] texel(
                    final(self).spec_pixels(),
                    old(self).spec_width(),
                    px,
                    py,
                ) == if res.0 <= px < res.0 + w && res.1 <= py < res.1 + h {
                    bitmap@[(py - res.1) * w + (px - res.0)]
                } else if old(self).spec_wipes(at_least_one(w), at_least_one(h)) {
                    0u8
                } else {
                    texel(old(self).spec_pixels(), old(self).spec_width(), px, py)
                },
    {
        let aw = if w >= 1 { w } else { 1 };
        let ah = if h >= 1 { h } else { 1 };
        let (x, y, wiped) = self.allocate(aw, ah);
        proof {
            lemma_fitting_glyph_in_bounds(*old(self), aw as int, ah as int);
            let before = if old(self).spec_wipes(aw as int, ah as int) {
                Some((0u32, 0u32, old(self).spec_width() as u32, old(self).spec_height() as u32))
            } else {
                old(self).spec_dirty_rect()
            };
            lemma_grown_dirty_covers(before, x, y, aw, ah);
        }
        let ghost mid = self.spec_pixels();
        self.blit(x, y, w, h, bitmap);
        proof {
            let width = old(self).spec_width();
            assert forall|px: int, py: int|
                0 <= px < width && 0 <= py < old(self).spec_height() && old(self).spec_wipes(
                    at_least_one(w),
                    at_least_one(h),
                ) implies #[trigger] texel(mid, width, px, py) == 0u8 by {
                lemma_texel_in_bounds(width, old(self).spec_height(), px, py);
            }
        }
        (x, y, wiped)
    }

    /// Returns the texels of the atlas.
    pub fn pixels(&self) -> (res: &[u8])
        ensures
            res@ == self.spec_pixels(),
    {
        self.pixels.as_slice()
    }

    pub fn width(&self) -> (res: u32)
        ensures
            res == self.spec_width(),
    {
        self.width
    }

    pub fn height(&self) -> (res: u32)
        ensures
            res == self.spec_height(),
    {
        self.height
    }

    /// Whether any texel changed since the last `mark_clean()`.
    pub fn is_dirty(&self) -> (res: bool)
        ensures
            res == self.spec_dirty(),
    {
        self.dirty
    }

    /// Returns the dirty rect as (x, y, w, h) if any region changed since the
    /// last `mark_clean()` call.
    pub fn dirty_rect(&self) -> (res: Option<(u32, u32, u32, u32)>)
        ensures
            res == self.spec_dirty_rect(),
    {
        self.dirty_rect
    }

    /// Records that the texture has been uploaded.
    pub fn mark_clean(&mut self)
        requires
            old(self).wf(),
        ensures
            final(self).wf(),
            !final(self).spec_dirty(),
            final(self).spec_dirty_rect() is None,
            final(self).spec_width() == old(self).spec_width(),
            final(self).spec_height() == old(self).spec_height(),
            final(self).spec_pixels() == old(self).spec_pixels(),
            final(self).spec_cursor() == old(self).spec_cursor(),
            final(self).spec_row_height() == old(self).spec_row_height(),
            final(self).spec_placed() == old(self).spec_placed(),
    {
        self.dirty = false;
        self.dirty_rect = None;
        self.clean = Ghost(self.pixels@);
        proof {
            lemma_wf_frame(*old(self), *self);
        }
    }
}

/// The invariant depends on the texels only through their number.
proof fn lemma_wf_frame(a: AtlasCanvas, b: AtlasCanvas)
    requires
        a.wf(),
        b.width == a.width,
        b.height == a.height,
        b.pixels@.len() == a.pixels@.len(),
        b.cursor_x == a.cursor_x,
        b.cursor_y == a.cursor_y,
        b.row_h == a.row_h,
        b.placed@ == a.placed@,
        b.dirty_rect matches Some(d) ==> d.0 + d.2 <= u32::MAX && d.1 + d.3 <= u32::MAX,
        b.tracks_changes(),
    ensures
        b.wf(),
{
    assert forall|i: int| 0 <= i < b.spec_placed().len() implies AtlasCanvas::on_finished_row_or_left_of_cursor(
        #[trigger] b.spec_placed()[i],
        b.spec_cursor(),
        b.spec_row_height(),
    ) && region_well_placed(b.spec_placed()[i]) by {
        assert(a.spec_placed()[i] == b.spec_placed()[i]);
    }
    assert forall|i: int, j: int|
        0 <= i < b.spec_placed().len() && 0 <= j < b.spec_placed().len() && i != j implies regions_disjoint(
        #[trigger] b.spec_placed()[i],
        #[trigger] b.spec_placed()[j],
    ) by {
        assert(regions_disjoint(a.spec_placed()[i], a.spec_placed()[j]));
    }
}

/// Distinct texels of a row-major surface have distinct indices.
proof fn lemma_texel_index_unique(width: int, px1: int, py1: int, px2: int, py2: int)
    requires
        0 <= px1 < width,
        0 <= px2 < width,
        0 <= py1,
        0 <= py2,
    ensures
        (py1 * width + px1 == py2 * width + px2) <==> (px1 == px2 && py1 == py2),
{
    if py1 < py2 {
        assert(py1 * width + width <= py2 * width) by (nonlinear_arith)
            requires
                py1 < py2,
                width > 0,
        ;
    } else if py2 < py1 {
        assert(py2 * width + width <= py1 * width) by (nonlinear_arith)
            requires
                py2 < py1,
                width > 0,
        ;
    }
}

/// A texel inside the surface has an index inside the surface.
proof fn lemma_texel_in_bounds(width: int, height: int, px: int, py: int)
    requires
        0 <= px < width,
        0 <= py < height,
    ensures
        0 <= py * width + px < width * height,
{
    assert(0 <= py * width + px < width * height) by (nonlinear_arith)
        requires
            0 <= px < width,
            0 <= py < height,
    ;
}

// ---------------------------------------------------------------------------
// Laws
// ---------------------------------------------------------------------------

/// Regions handed out since the atlas was last wiped never overlap.
pub proof fn lemma_placed_regions_disjoint(atlas: AtlasCanvas, i: int, j: int)
    requires
        atlas.wf(),
        0 <= i < atlas.spec_placed().len(),
        0 <= j < atlas.spec_placed().len(),
        i != j,
    ensures
        regions_disjoint(atlas.spec_placed()[i], atlas.spec_placed()[j]),
{
}

/// A glyph that fits in the atlas beside the one-texel margin at the top
/// and left is placed inside the atlas.
pub proof fn lemma_fitting_glyph_in_bounds(atlas: AtlasCanvas, w: int, h: int)
    requires
        atlas.wf(),
        0 <= w,
        0 <= h,
        w + 1 <= atlas.spec_width(),
        h + 1 <= atlas.spec_height(),
    ensures
        1 <= atlas.spec_place(w, h).0,
        1 <= atlas.spec_place(w, h).1,
        atlas.spec_place(w, h).0 + w <= atlas.spec_width(),
        atlas.spec_place(w, h).1 + h <= atlas.spec_height(),
{
}

/// The dirty rectangle after an allocation covers the new region and every
/// texel the previous dirty rectangle covered.
pub proof fn lemma_grown_dirty_covers(d: Option<(u32, u32, u32, u32)>, x: u32, y: u32, w: u32, h: u32)
    requires
        d matches Some(r) ==> r.0 + r.2 <= u32::MAX && r.1 + r.3 <= u32::MAX,
        x + w <= u32::MAX,
        y + h <= u32::MAX,
    ensures
        ({
            let g = grow_dirty(d, x as int, y as int, w as int, h as int);
            &&& g.0 <= x && x + w <= g.0 + g.2 && g.1 <= y && y + h <= g.1 + g.3
            &&& (d matches Some(r) ==> g.0 <= r.0 && r.0 + r.2 <= g.0 + g.2 && g.1 <= r.1 && r.1 + r.3 <= g.1 + g.3)
        }),
{
}

/// Uploading the dirty rectangle is enough: every texel outside it still has
/// the value it had at the last `mark_clean()`, and an atlas that is not
/// dirty has not changed at all since then.
pub proof fn lemma_dirty_rect_covers_changes(atlas: AtlasCanvas, px: int, py: int)
    requires
        atlas.wf(),
        0 <= px < atlas.spec_width(),
        0 <= py < atlas.spec_height(),
        !atlas.spec_dirty() || !in_rect(atlas.spec_dirty_rect(), px, py),
    ensures
        texel(atlas.spec_pixels(), atlas.spec_width(), px, py) == texel(
            atlas.spec_clean_pixels(),
            atlas.spec_width(),
            px,
            py,
        ),
{
}

/// Where a `w` by `h` glyph goes, read straight off the packing state: on
/// the current row at the cursor when it fits before the right edge (with
/// its padding), else at x = 1 on a new row one texel below the current
/// row's tallest glyph.  The atlas is wiped exactly when the glyph would then
/// cross the bottom edge (with its padding) on that row: the height of the
/// row it joins plays no part.  A wipe puts the glyph at (1, 1).
pub proof fn lemma_placement_from_cursor(atlas: AtlasCanvas, w: int, h: int)
    ensures
        ({
            let (cx, cy) = atlas.spec_cursor();
            let same_row = cx + w + 1 <= atlas.spec_width();
            let row_y = if same_row { cy } else { cy + atlas.spec_row_height() + 1 };
            let row_x = if same_row { cx } else { 1 };
            &&& atlas.spec_wipes(w, h) == (row_y + h + 1 > atlas.spec_height())
            &&& atlas.spec_place(w, h) == if row_y + h + 1 <= atlas.spec_height() {
                (row_x, row_y)
            } else {
                (1int, 1int)
            }
        }),
{
}

/// A glyph that fits beside the cursor on the current row, and above the
/// bottom edge there, goes exactly at the cursor and wipes nothing, however
/// tall the glyphs already on the row are.
pub proof fn lemma_fitting_glyph_stays_on_row(atlas: AtlasCanvas, w: int, h: int)
    requires
        atlas.spec_cursor().0 + w + 1 <= atlas.spec_width(),
        atlas.spec_cursor().1 + h + 1 <= atlas.spec_height(),
    ensures
        !atlas.spec_wipes(w, h),
        atlas.spec_place(w, h) == atlas.spec_cursor(),
{
}

} // verus!
