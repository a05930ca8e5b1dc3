//! CPU-side RGBA8 pixel buffer for icon sprite sheets.
//!
//! Icons are loaded once from a pre-built sprite sheet, so there is no dynamic
//! packing: the atlas only holds the pixels, the icon pack that names the
//! sprites, and a dirty flag telling the renderer when to re-upload.
use vstd::prelude::*;

verus! {

/// One named sprite of an icon sheet, in texel coordinates.
#[derive(Clone, Debug)]
pub struct IconEntry {
    pub name: String,
    pub x: u32,
    pub y: u32,
    pub width: u32,
    pub height: u32,
}

/// The set of named sprites that a sprite sheet holds.
#[derive(Clone, Debug)]
pub struct IconPack {
    pub entries: Vec<IconEntry>,
}

impl IconPack {
    /// An icon pack with no sprites.
    pub fn empty() -> (res: IconPack)
        ensures
            res.entries@.len() == 0,
    {
        IconPack { entries: Vec::new() }
    }
}

impl Default for IconPack {
    fn default() -> (res: IconPack)
        ensures
            res.entries@.len() == 0,
    {
        IconPack::empty()
    }
}

/// A call that changes an icon atlas.
pub enum IconAtlasCall {
    Load,
    MarkClean,
    /// `invalidate_gpu_cache()`, made while pixel data was (or was not) loaded.
    InvalidateGpuCache { loaded: bool },
}

/// The call leaves the atlas needing a re-upload.
pub open spec fn makes_dirty(call: IconAtlasCall) -> bool {
    match call {
        IconAtlasCall::Load => true,
        IconAtlasCall::MarkClean => false,
        IconAtlasCall::InvalidateGpuCache { loaded } => loaded,
    }
}

/// Since the last `mark_clean()` among `calls` (or since the start, if there
/// was none), some call loaded pixel data, or invalidated the GPU copy while
/// pixel data was loaded.
pub open spec fn dirty_after(calls: Seq<IconAtlasCall>) -> bool {
    exists|j: int|
        0 <= j < calls.len() && #[trigger] makes_dirty(calls[j]) && forall|k: int|
            j < k < calls.len() ==> !(#[trigger] calls[k] is MarkClean)
}

/// Whether the GPU copy is stale, and the calls that decided it.
struct UploadState {
    dirty: bool,
    calls: Ghost<Seq<IconAtlasCall>>,
}

/// A CPU-side RGBA8 pixel buffer for an icon sprite sheet, paired with the
/// [`IconPack`] that names its sprites.
pub struct IconAtlas {
    width: u32,
    height: u32,
    /// RGBA8 pixel data (4 bytes per pixel).
    pixels: Vec<u8>,
    upload: UploadState,
    pack: IconPack,
}

impl IconAtlas {
    pub closed spec fn spec_width(&self) -> u32 {
        self.width
    }

    pub closed spec fn spec_height(&self) -> u32 {
        self.height
    }

    pub closed spec fn spec_pixels(&self) -> Seq<u8> {
        self.pixels@
    }

    pub closed spec fn spec_dirty(&self) -> bool {
        self.upload.dirty
    }

    /// The calls made on this atlas since `new()`, in order.
    pub closed spec fn spec_calls(&self) -> Seq<IconAtlasCall> {
        self.upload.calls@
    }

    pub closed spec fn spec_pack(&self) -> IconPack {
        self.pack
    }

    /// The pixel buffer holds exactly `width * height` RGBA pixels.
    pub open spec fn wf(&self) -> bool {
        self.spec_pixels().len() == self.spec_width() as int * self.spec_height() as int * 4
    }

    /// Every icon atlas, whatever calls made it, holds exactly
    /// `width * height` RGBA pixels, and is dirty exactly when a call since
    /// the last `mark_clean()` made it so.
    #[verifier::type_invariant]
    spec fn consistent(&self) -> bool {
        &&& self.pixels@.len() == self.width as int * self.height as int * 4
        &&& self.upload.dirty == dirty_after(self.upload.calls@)
    }

    /// Create a new empty icon atlas.
    pub fn new() -> (res: IconAtlas)
        ensures
            res.wf(),
            res.spec_width() == 0,
            res.spec_height() == 0,
            res.spec_pixels().len() == 0,
            !res.spec_dirty(),
            res.spec_pack().entries@.len() == 0,
            res.spec_calls().len() == 0,
    {
        let upload = UploadState { dirty: false, calls: Ghost(Seq::empty()) };
        IconAtlas { width: 0, height: 0, pixels: Vec::new(), upload, pack: IconPack::default() }
    }

    /// Load icon data from raw RGBA pixels and a metadata manifest.
    ///
    /// `rgba_pixels` must contain exactly `width * height * 4` bytes.
    pub fn load(&mut self, rgba_pixels: Vec<u8>, width: u32, height: u32, pack: IconPack)
        requires
            width as int * height as int * 4 <= u32::MAX,
            rgba_pixels@.len() == width as int * height as int * 4,
        ensures
            final(self).wf(),
            final(self).spec_width() == width,
            final(self).spec_height() == height,
            final(self).spec_pixels() == rgba_pixels@,
            final(self).spec_pack() == pack,
            final(self).spec_dirty(),
            final(self).spec_calls() == old(self).spec_calls().push(IconAtlasCall::Load),
    {
        proof {
            use_type_invariant(&*self);
        }
        let ghost calls = self.upload.calls@.push(IconAtlasCall::Load);
        proof {
            assert(makes_dirty(calls[calls.len() - 1]));
        }
        let upload = UploadState { dirty: true, calls: Ghost(calls) };
        *self = IconAtlas { width, height, pixels: rgba_pixels, upload, pack };
    }

    /// Returns the RGBA pixel data.
    pub fn pixels(&self) -> (res: &[u8])
        ensures
            res@ == self.spec_pixels(),
            res@.len() == self.spec_width() as int * self.spec_height() as int * 4,
    {
        proof {
            use_type_invariant(self);
        }
        self.pixels.as_slice()
    }

    /// Returns the atlas texture width.
    pub fn width(&self) -> (res: u32)
        ensures
            res == self.spec_width(),
    {
        self.width
    }

    /// Returns the atlas texture height.
    pub fn height(&self) -> (res: u32)
        ensures
            res == self.spec_height(),
    {
        self.height
    }

    /// Returns `true` if the pixel data has changed since the last
    /// `mark_clean()` call and needs to be re-uploaded to the GPU.
    pub fn is_dirty(&self) -> (res: bool)
        ensures
            res == self.spec_dirty(),
            res == dirty_after(self.spec_calls()),
    {
        proof {
            use_type_invariant(self);
        }
        self.upload.dirty
    }

    /// Mark the atlas as clean (pixel data has been uploaded to the GPU).
    pub fn mark_clean(&mut self)
        ensures
            !final(self).spec_dirty(),
            final(self).spec_calls() == old(self).spec_calls().push(IconAtlasCall::MarkClean),
            final(self).spec_width() == old(self).spec_width(),
            final(self).spec_height() == old(self).spec_height(),
            final(self).spec_pixels() == old(self).spec_pixels(),
            final(self).spec_pack() == old(self).spec_pack(),
    {
        proof {
            use_type_invariant(&*self);
        }
        let ghost calls = self.upload.calls@.push(IconAtlasCall::MarkClean);
        proof {
            if dirty_after(calls) {
                let j = choose|j: int|
                    0 <= j < calls.len() && #[trigger] makes_dirty(calls[j]) && forall|k: int|
                        j < k < calls.len() ==> !(#[trigger] calls[k] is MarkClean);
                if j < calls.len() - 1 {
                    assert(calls[calls.len() - 1] is MarkClean);
                }
            }
        }
        self.upload = UploadState { dirty: false, calls: Ghost(calls) };
    }

    /// Mark the atlas as needing re-upload (e.g. after context loss); has no
    /// effect while no pixel data is loaded.
    pub fn invalidate_gpu_cache(&mut self)
        ensures
            final(self).spec_dirty() == (old(self).spec_dirty() || old(self).spec_pixels().len() > 0),
            final(self).spec_calls() == old(self).spec_calls().push(
                IconAtlasCall::InvalidateGpuCache { loaded: old(self).spec_pixels().len() > 0 },
            ),
            final(self).spec_width() == old(self).spec_width(),
            final(self).spec_height() == old(self).spec_height(),
            final(self).spec_pixels() == old(self).spec_pixels(),
            final(self).spec_pack() == old(self).spec_pack(),
    {
        proof {
            use_type_invariant(&*self);
        }
        let loaded = self.pixels.len() > 0;
        let ghost old_calls = self.upload.calls@;
        let ghost calls = old_calls.push(IconAtlasCall::InvalidateGpuCache { loaded });
        proof {
            let last = calls.len() - 1;
            assert(calls[last] == IconAtlasCall::InvalidateGpuCache { loaded });
            if loaded {
                assert(makes_dirty(calls[last]));
            } else if dirty_after(old_calls) {
                let j = choose|j: int|
                    0 <= j < old_calls.len() && #[trigger] makes_dirty(old_calls[j]) && forall|k: int|
                        j < k < old_calls.len() ==> !(#[trigger] old_calls[k] is MarkClean);
                assert(calls[j] == old_calls[j]);
                assert forall|k: int| j < k < calls.len() implies !(#[trigger] calls[k] is MarkClean) by {
                    if k < old_calls.len() {
                        assert(calls[k] == old_calls[k]);
                    }
                }
            } else if dirty_after(calls) {
                let j = choose|j: int|
                    0 <= j < calls.len() && #[trigger] makes_dirty(calls[j]) && forall|k: int|
                        j < k < calls.len() ==> !(#[trigger] calls[k] is MarkClean);
                assert(j < last);
                assert(old_calls[j] == calls[j]);
                assert forall|k: int| j < k < old_calls.len() implies !(#[trigger] old_calls[k] is MarkClean) by {
                    assert(calls[k] == old_calls[k]);
                }
            }
        }
        let dirty = self.upload.dirty || loaded;
        self.upload = UploadState { dirty, calls: Ghost(calls) };
    }

    /// Returns a reference to the loaded icon pack.
    pub fn pack(&self) -> (res: &IconPack)
        ensures
            *res == self.spec_pack(),
    {
        &self.pack
    }

    /// Returns `true` if icon data has been loaded.
    pub fn is_loaded(&self) -> (res: bool)
        ensures
            res == (self.spec_pixels().len() > 0),
    {
        self.pixels.len() > 0
    }
}

} // verus!
