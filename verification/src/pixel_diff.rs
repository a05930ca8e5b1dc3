//! Pixel-level comparison of RGBA screenshots for visual regression testing.
//!
//! A pixel "differs" when any of its four channels (R, G, B, A) differs by
//! more than [`CHANNEL_TOLERANCE`].  Comparing two images of equal size counts
//! the differing pixels and produces a diff image in which differing pixels are
//! magenta and all others are a dimmed copy of the actual pixel.
use vstd::prelude::*;

verus! {

/// Per-channel tolerance for perceptual comparison.
pub const CHANNEL_TOLERANCE: u8 = 3;

/// Absolute difference of two channel values.
pub open spec fn channel_distance(a: u8, b: u8) -> int {
    if a >= b { a - b } else { b - a }
}

/// Two channel values differ beyond the tolerance.
pub open spec fn channel_differs(a: u8, b: u8) -> bool {
    channel_distance(a, b) > CHANNEL_TOLERANCE as int
}

/// Two RGBA pixels (given as four-element sequences) differ in some channel.
pub open spec fn rgba_differs(a: Seq<u8>, b: Seq<u8>) -> bool {
    exists|c: int| 0 <= c < 4 && #[trigger] channel_differs(a[c], b[c])
}

/// Returns true if two RGBA pixels differ beyond the perceptual tolerance.
pub fn pixels_differ(a: &[u8; 4], b: &[u8; 4]) -> (res: bool)
    ensures
        res == rgba_differs(a@, b@),
{
    let mut i: usize = 0;
    while i < 4
        invariant
            0 <= i <= 4,
            a@.len() == 4,
            b@.len() == 4,
            forall|c: int| 0 <= c < i ==> !channel_differs(a@[c], b@[c]),
        decreases 4 - i,
    {
        let x = a[i];
        let y = b[i];
        let diff: u8 = if x >= y { x - y } else { y - x };
        if diff > CHANNEL_TOLERANCE {
            assert(channel_differs(a@[i as int], b@[i as int]));
            return true;
        }
        i = i + 1;
    }
    false
}

// ---------------------------------------------------------------------------
// RGBA buffers
// ---------------------------------------------------------------------------

/// A tightly packed RGBA8 image: `width * height` pixels, four bytes each,
/// row-major.
pub struct RgbaBuffer {
    width: u32,
    height: u32,
    data: Vec<u8>,
}

impl RgbaBuffer {
    /// Byte length of a packed RGBA image of the given size.
    pub open spec fn byte_len(width: int, height: int) -> int {
        width * height * 4
    }

    pub closed spec fn spec_width(&self) -> u32 {
        self.width
    }

    pub closed spec fn spec_height(&self) -> u32 {
        self.height
    }

    /// The raw bytes of the image.
    pub closed spec fn bytes(&self) -> Seq<u8> {
        self.data@
    }

    /// The byte vector holds exactly `width * height` pixels.
    pub open spec fn wf(&self) -> bool {
        self.bytes().len() == Self::byte_len(self.spec_width() as int, self.spec_height() as int)
    }

    /// Wraps raw RGBA bytes; `None` unless the buffer holds exactly
    /// `width * height * 4` bytes.
    pub fn from_raw(width: u32, height: u32, data: Vec<u8>) -> (res: Option<RgbaBuffer>)
        ensures
            match res {
                Some(buf) => {
                    &&& data@.len() == Self::byte_len(width as int, height as int)
                    &&& buf.wf()
                    &&& buf.spec_width() == width
                    &&& buf.spec_height() == height
                    &&& buf.bytes() == data@
                },
                None => data@.len() != Self::byte_len(width as int, height as int),
            },
    {
        let w = width as u64;
        let h = height as u64;
        // w * h < 2^64 since both are below 2^32.
        assert(w * h <= 0xffff_ffff_ffff_ffffu64 as int) by (nonlinear_arith)
            requires
                w <= 0xffff_ffffu64,
                h <= 0xffff_ffffu64,
        ;
        let pixels: u64 = w * h;
        let len = data.len() as u64;
        if pixels > u64::MAX / 4 {
            proof {
                assert(data@.len() <= 0xffff_ffff_ffff_ffffu64);
            }
            return None;
        }
        if len != pixels * 4 {
            return None;
        }
        Some(RgbaBuffer { width, height, data })
    }

    pub fn width(&self) -> (res: u32)
        ensures
            res == self.spec_width(),
    {
        self.width
    }

    pub fn height(&self) -> (res: u32)
        ensures
            res == self.spec_height(),
    {
        self.height
    }

    /// The raw RGBA bytes.
    pub fn as_bytes(&self) -> (res: &[u8])
        ensures
            res@ == self.bytes(),
    {
        self.data.as_slice()
    }

    /// Gives up the wrapper and returns the raw RGBA bytes.
    pub fn into_raw(self) -> (res: Vec<u8>)
        ensures
            res@ == self.bytes(),
    {
        self.data
    }
}

// ---------------------------------------------------------------------------
// Decoding
// ---------------------------------------------------------------------------

/// What `image::load_from_memory_with_format(bytes, ImageFormat::Png)` followed
/// by conversion to RGBA8 yields: `Ok((width, height, rgba_bytes))`, or the
/// decoder's error message.
pub uninterp spec fn png_rgba_decoding(bytes: Seq<u8>) -> Result<(u32, u32, Seq<u8>), Seq<char>>;

/// Decodes PNG bytes with `image::load_from_memory_with_format` and converts
/// the picture to RGBA8 (`DynamicImage::to_rgba8`), handing back its size and
/// raw bytes.  The contract claims only that the result is the function
/// `png_rgba_decoding` of the input bytes; nothing is said of the pixel values.
#[verifier::external_body]
fn decode_png_rgba8(bytes: &[u8]) -> (res: Result<(u32, u32, Vec<u8>), String>)
    ensures
        match res {
            Ok((w, h, data)) => png_rgba_decoding(bytes@) == Ok::<(u32, u32, Seq<u8>), Seq<char>>((w, h, data@)),
            Err(msg) => png_rgba_decoding(bytes@) == Err::<(u32, u32, Seq<u8>), Seq<char>>(msg@),
        },
{
    match image::load_from_memory_with_format(bytes, image::ImageFormat::Png) {
        Ok(img) => {
            let rgba = img.to_rgba8();
            Ok((rgba.width(), rgba.height(), rgba.into_raw()))
        },
        Err(e) => Err(e.to_string()),
    }
}

/// Why a screenshot could not be compared.
pub enum ScreenshotError {
    /// The PNG decoder rejected the bytes; carries its message.
    Decode(String),
    /// The decoded buffer does not hold `width * height` RGBA pixels.
    BufferSize { width: u32, height: u32 },
    /// The two images have different dimensions.
    SizeMismatch { baseline_width: u32, baseline_height: u32, actual_width: u32, actual_height: u32 },
}

/// Turns the decoder's output into an [`RgbaBuffer`].
pub fn rgba_from_decoded(decoded: Result<(u32, u32, Vec<u8>), String>) -> (res: Result<RgbaBuffer, ScreenshotError>)
    ensures
        match decoded {
            Ok((w, h, data)) => {
                if data@.len() == RgbaBuffer::byte_len(w as int, h as int) {
                    res matches Ok(buf) && buf.wf() && buf.spec_width() == w && buf.spec_height() == h
                        && buf.bytes() == data@
                } else {
                    res matches Err(ScreenshotError::BufferSize { width, height }) && width == w && height == h
                }
            },
            Err(msg) => res matches Err(ScreenshotError::Decode(m)) && m@ == msg@,
        },
{
    match decoded {
        Ok((w, h, data)) => match RgbaBuffer::from_raw(w, h, data) {
            Some(buf) => Ok(buf),
            None => Err(ScreenshotError::BufferSize { width: w, height: h }),
        },
        Err(msg) => Err(ScreenshotError::Decode(msg)),
    }
}

/// Decodes a PNG screenshot into an RGBA buffer.
pub fn decode_png(bytes: &[u8]) -> (res: Result<RgbaBuffer, ScreenshotError>)
    ensures
        match png_rgba_decoding(bytes@) {
            Ok((w, h, data)) => {
                if data.len() == RgbaBuffer::byte_len(w as int, h as int) {
                    res matches Ok(buf) && buf.wf() && buf.spec_width() == w && buf.spec_height() == h
                        && buf.bytes() == data
                } else {
                    res matches Err(ScreenshotError::BufferSize { width, height }) && width == w && height == h
                }
            },
            Err(msg) => res matches Err(ScreenshotError::Decode(m)) && m@ == msg,
        },
{
    rgba_from_decoded(decode_png_rgba8(bytes))
}

// ---------------------------------------------------------------------------
// Comparison
// ---------------------------------------------------------------------------

/// The four bytes of pixel `p`.
pub open spec fn pixel_at(data: Seq<u8>, p: int) -> Seq<u8> {
    data.subrange(4 * p, 4 * p + 4)
}

/// Pixel `p` of `a` differs from pixel `p` of `b`.
pub open spec fn pixel_differs_at(a: Seq<u8>, b: Seq<u8>, p: int) -> bool {
    rgba_differs(pixel_at(a, p), pixel_at(b, p))
}

/// Number of differing pixels among the first `n`.
pub open spec fn count_differing(a: Seq<u8>, b: Seq<u8>, n: nat) -> nat
    decreases n,
{
    if n == 0 {
        0
    } else {
        count_differing(a, b, (n - 1) as nat) + if pixel_differs_at(a, b, n - 1) { 1nat } else { 0nat }
    }
}

/// Channel `c` of pixel `p` in the diff image: magenta where the pixels
/// differ, otherwise the actual pixel's colour at a third of its intensity,
/// fully opaque.
pub open spec fn diff_channel(baseline: Seq<u8>, actual: Seq<u8>, p: int, c: int) -> u8 {
    if pixel_differs_at(baseline, actual, p) {
        if c == 1 { 0u8 } else { 255u8 }
    } else if c == 3 {
        255u8
    } else {
        (actual[4 * p + c] / 3) as u8
    }
}

/// Outcome of comparing two equally sized images.
pub struct PixelComparison {
    /// Total number of pixels in the image.
    pub total_pixels: u64,
    /// Number of pixels that differ beyond the perceptual tolerance.
    pub diff_pixels: u64,
    /// The diff image: differing pixels in magenta, others dimmed.
    pub diff_image: RgbaBuffer,
}

/// Compares `actual` against `baseline` pixel by pixel.
///
/// Fails with `SizeMismatch` when the dimensions differ; otherwise counts the
/// differing pixels and builds the diff image.
pub fn compare_pixels(baseline: &RgbaBuffer, actual: &RgbaBuffer) -> (res: Result<PixelComparison, ScreenshotError>)
    requires
        baseline.wf(),
        actual.wf(),
    ensures
        (baseline.spec_width() != actual.spec_width() || baseline.spec_height() != actual.spec_height())
            <==> res is Err,
        res matches Err(e) ==> (e matches ScreenshotError::SizeMismatch { baseline_width, baseline_height, actual_width, actual_height }
            && baseline_width == baseline.spec_width() && baseline_height == baseline.spec_height()
            && actual_width == actual.spec_width() && actual_height == actual.spec_height()),
        res matches Ok(outcome) ==> {
            let n = baseline.spec_width() as int * baseline.spec_height() as int;
            &&& outcome.total_pixels == n
            &&& outcome.diff_pixels == count_differing(baseline.bytes(), actual.bytes(), n as nat)
            &&& outcome.diff_image.wf()
            &&& outcome.diff_image.spec_width() == baseline.spec_width()
            &&& outcome.diff_image.spec_height() == baseline.spec_height()
            &&& forall|p: int, c: int| 0 <= p < n && 0 <= c < 4 ==>
                #[trigger] outcome.diff_image.bytes()[4 * p + c] == diff_channel(baseline.bytes(), actual.bytes(), p, c)
        },
{
    let bw = baseline.width;
    let bh = baseline.height;
    if bw != actual.width || bh != actual.height {
        return Err(ScreenshotError::SizeMismatch {
            baseline_width: bw,
            baseline_height: bh,
            actual_width: actual.width,
            actual_height: actual.height,
        });
    }
    let ghost a = baseline.data@;
    let ghost b = actual.data@;
    let _byte_len = baseline.data.len();
    proof {
        assert(bw as int * bh as int * 4 == a.len());
        assert(bw as int * bh as int <= usize::MAX) by (nonlinear_arith)
            requires
                bw as int * bh as int * 4 == a.len(),
                a.len() <= usize::MAX,
        ;
    }
    let n: usize = (bw as usize) * (bh as usize);
    let mut diff_pixels: u64 = 0;
    let mut out: Vec<u8> = Vec::with_capacity(baseline.data.len());
    let mut p: usize = 0;
    while p < n
        invariant
            p <= n,
            n as int == bw as int * bh as int,
            a == baseline.data@,
            b == actual.data@,
            a.len() == 4 * n,
            b.len() == 4 * n,
            4 * n <= usize::MAX,
            diff_pixels == count_differing(a, b, p as nat),
            diff_pixels <= p,
            out@.len() == 4 * p,
            forall|q: int, c: int| 0 <= q < p && 0 <= c < 4 ==>
                #[trigger] out@[4 * q + c] == diff_channel(a, b, q, c),
        decreases n - p,
    {
        let i = 4 * p;
        let bp: [u8; 4] = [baseline.data[i], baseline.data[i + 1], baseline.data[i + 2], baseline.data[i + 3]];
        let ap: [u8; 4] = [actual.data[i], actual.data[i + 1], actual.data[i + 2], actual.data[i + 3]];
        proof {
            assert(bp@ =~= pixel_at(a, p as int));
            assert(ap@ =~= pixel_at(b, p as int));
        }
        let differs = pixels_differ(&bp, &ap);
        let ghost old_out = out@;
        if differs {
            diff_pixels = diff_pixels + 1;
            out.push(255u8);
            out.push(0u8);
            out.push(255u8);
            out.push(255u8);
        } else {
            out.push(ap[0] / 3);
            out.push(ap[1] / 3);
            out.push(ap[2] / 3);
            out.push(255u8);
        }
        proof {
            assert forall|q: int, c: int| 0 <= q < p + 1 && 0 <= c < 4 implies
                #[trigger] out@[4 * q + c] == diff_channel(a, b, q, c) by {
                if q < p {
                    assert(out@[4 * q + c] == old_out[4 * q + c]);
                }
            }
        }
        p = p + 1;
    }
    let diff_image = RgbaBuffer { width: bw, height: bh, data: out };
    Ok(PixelComparison { total_pixels: n as u64, diff_pixels, diff_image })
}

// ---------------------------------------------------------------------------
// Laws
// ---------------------------------------------------------------------------

/// Whether two pixels differ does not depend on which one is the baseline.
pub proof fn lemma_differs_symmetric(a: Seq<u8>, b: Seq<u8>)
    ensures
        rgba_differs(a, b) == rgba_differs(b, a),
{
    if rgba_differs(a, b) {
        let c = choose|c: int| 0 <= c < 4 && #[trigger] channel_differs(a[c], b[c]);
        assert(channel_differs(b[c], a[c]));
    }
    if rgba_differs(b, a) {
        let c = choose|c: int| 0 <= c < 4 && #[trigger] channel_differs(b[c], a[c]);
        assert(channel_differs(a[c], b[c]));
    }
}

/// A pixel never differs from itself.
pub proof fn lemma_pixel_never_differs_from_itself(a: Seq<u8>)
    ensures
        !rgba_differs(a, a),
{
}

/// Comparing two images counts the same differing pixels whichever is the
/// baseline, and an image compared with itself has no differing pixel.
pub proof fn lemma_count_differing_laws(a: Seq<u8>, b: Seq<u8>, n: nat)
    ensures
        count_differing(a, b, n) == count_differing(b, a, n),
        count_differing(a, a, n) == 0,
        count_differing(a, b, n) <= n,
    decreases n,
{
    if n > 0 {
        lemma_count_differing_laws(a, b, (n - 1) as nat);
        let p = n - 1;
        lemma_differs_symmetric(pixel_at(a, p), pixel_at(b, p));
        lemma_pixel_never_differs_from_itself(pixel_at(a, p));
    }
}

/// The differing-pixel count is the number of pixel positions below `n` at
/// which the two images differ: every differing pixel is counted, once.
pub proof fn lemma_count_is_number_of_differing_pixels(a: Seq<u8>, b: Seq<u8>, n: nat)
    ensures
        Set::new(|p: int| 0 <= p < n && pixel_differs_at(a, b, p)).finite(),
        count_differing(a, b, n) == Set::new(|p: int| 0 <= p < n && pixel_differs_at(a, b, p)).len(),
    decreases n,
{
    let s = Set::new(|p: int| 0 <= p < n && pixel_differs_at(a, b, p));
    if n == 0 {
        assert(s =~= Set::<int>::empty());
    } else {
        let m = (n - 1) as nat;
        lemma_count_is_number_of_differing_pixels(a, b, m);
        let prev = Set::new(|p: int| 0 <= p < m && pixel_differs_at(a, b, p));
        if pixel_differs_at(a, b, m as int) {
            assert(s =~= prev.insert(m as int));
            assert(!prev.contains(m as int));
        } else {
            assert(s =~= prev);
        }
    }
}

/// Two images that differ at every one of their first `n` pixels report all
/// `n` of them, and two that differ nowhere report none.
pub proof fn lemma_count_all_or_none(a: Seq<u8>, b: Seq<u8>, n: nat)
    ensures
        (forall|p: int| 0 <= p < n ==> #[trigger] pixel_differs_at(a, b, p)) ==> count_differing(a, b, n) == n,
        (forall|p: int| 0 <= p < n ==> !#[trigger] pixel_differs_at(a, b, p)) ==> count_differing(a, b, n) == 0,
    decreases n,
{
    if n > 0 {
        lemma_count_all_or_none(a, b, (n - 1) as nat);
    }
}

/// Two pixels differ exactly when some channel's values lie more than 3
/// apart; a gap of 3 or less in every channel is tolerated.
pub proof fn lemma_pixels_differ_beyond_three(a: Seq<u8>, b: Seq<u8>)
    requires
        a.len() == 4,
        b.len() == 4,
    ensures
        rgba_differs(a, b) <==> exists|c: int| 0 <= c < 4 && (a[c] as int - b[c] as int > 3 || b[c] as int - a[c] as int > 3),
{
    if rgba_differs(a, b) {
        let c = choose|c: int| 0 <= c < 4 && #[trigger] channel_differs(a[c], b[c]);
        assert(a[c] as int - b[c] as int > 3 || b[c] as int - a[c] as int > 3);
    }
    if exists|c: int| 0 <= c < 4 && (a[c] as int - b[c] as int > 3 || b[c] as int - a[c] as int > 3) {
        let c = choose|c: int| 0 <= c < 4 && (a[c] as int - b[c] as int > 3 || b[c] as int - a[c] as int > 3);
        assert(channel_differs(a[c], b[c]));
    }
}

/// In the diff image a differing pixel is opaque magenta (255, 0, 255, 255);
/// any other pixel is the actual pixel with each colour channel divided by
/// three, fully opaque.
pub proof fn lemma_diff_pixel_colours(baseline: Seq<u8>, actual: Seq<u8>, p: int)
    ensures
        pixel_differs_at(baseline, actual, p) ==> diff_channel(baseline, actual, p, 0) == 255 && diff_channel(
            baseline,
            actual,
            p,
            1,
        ) == 0 && diff_channel(baseline, actual, p, 2) == 255 && diff_channel(baseline, actual, p, 3) == 255,
        !pixel_differs_at(baseline, actual, p) ==> {
            &&& diff_channel(baseline, actual, p, 0) as int == actual[4 * p] as int / 3
            &&& diff_channel(baseline, actual, p, 1) as int == actual[4 * p + 1] as int / 3
            &&& diff_channel(baseline, actual, p, 2) as int == actual[4 * p + 2] as int / 3
            &&& diff_channel(baseline, actual, p, 3) == 255
        },
{
}

} // verus!
