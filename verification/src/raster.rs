use crate::bitmap::ImtGlyphBitmap;
use crate::error::{ImtError, ImtErrorSrc, ImtErrorTy};
use crate::scale::ImtTextHeight;
use crossbeam::sync::Unparker;
use std::collections::BTreeMap;
use std::sync::Arc;
use vstd::prelude::*;
use vulkano::format::Format;

verus! {

/// How many rays are cast from each sample.
#[derive(Clone, Copy, Debug, PartialEq, Eq, Structural)]
pub enum ImtFillQuality {
    Fast,
    Normal,
    Best,
}

impl ImtFillQuality {
    /// The number of rays: three, five or thirteen.
    pub open spec fn rays(self) -> nat {
        match self {
            ImtFillQuality::Fast => 3,
            ImtFillQuality::Normal => 5,
            ImtFillQuality::Best => 13,
        }
    }

    /// `rays`, computed.
    pub fn ray_count(&self) -> (n: usize)
        ensures
            n == self.rays(),
    {
        match self {
            Self::Fast => 3,
            Self::Normal => 5,
            Self::Best => 13,
        }
    }

    /// Whether a sample is filled: at least half of its rays found it inside.
    pub fn sample_filled(&self, rays_inside: usize) -> (filled: bool)
        ensures
            filled == (2 * rays_inside >= self.rays()),
    {
        let rays = self.ray_count();
        rays_inside >= rays - rays / 2
    }
}

/// Whether a ray that crossed the outline `hits` times began inside it: an
/// odd number of times.
pub fn ray_inside(hits: usize) -> (inside: bool)
    ensures
        inside == (hits % 2 == 1),
{
    hits % 2 != 0
}

/// Where the three subpixels of a pixel are sampled along x: at one, three
/// and five sixths of the pixel. The result is the numerator over six.
pub fn subpixel_offset(channel: u8) -> (sixths: u16)
    ensures
        sixths == 2 * channel + 1,
{
    2 * (channel as u16) + 1
}

/// How many samples are taken in each subpixel.
#[derive(Clone, Copy, Debug, PartialEq, Eq, Structural)]
pub enum ImtSampleQuality {
    Fastest,
    Faster,
    Fast,
    Normal,
    Best,
}

impl ImtSampleQuality {
    /// The samples lie on a square grid of this many rows and columns.
    pub open spec fn side(self) -> nat {
        match self {
            ImtSampleQuality::Fastest => 1,
            ImtSampleQuality::Faster => 2,
            ImtSampleQuality::Fast => 3,
            ImtSampleQuality::Normal => 4,
            ImtSampleQuality::Best => 5,
        }
    }

    /// The number of samples: the square of the side.
    pub open spec fn samples(self) -> nat {
        self.side() * self.side()
    }

    /// `side`, computed.
    pub fn grid_side(&self) -> (w: usize)
        ensures
            w == self.side(),
    {
        match self {
            Self::Fastest => 1,
            Self::Faster => 2,
            Self::Fast => 3,
            Self::Normal => 4,
            Self::Best => 5,
        }
    }

    /// `samples`, computed.
    pub fn sample_count(&self) -> (n: usize)
        ensures
            n == self.samples(),
    {
        match self {
            Self::Fastest => 1,
            Self::Faster => 4,
            Self::Fast => 9,
            Self::Normal => 16,
            Self::Best => 25,
        }
    }

    /// Where the sample of column `x` and row `y` of the grid lies in its
    /// pixel, both counted from one: the numerators, over `side() + 1`, of
    /// offsets between -1 and 1.
    pub open spec fn offset(self, x: int, y: int) -> (i32, i32) {
        ((2 * x - self.side() - 1) as i32, (2 * y - self.side() - 1) as i32)
    }

    /// The offsets of all samples, column by column.
    pub open spec fn offsets(self) -> Seq<(i32, i32)> {
        Seq::new(
            self.samples(),
            |i: int| self.offset(i / self.side() as int + 1, i % self.side() as int + 1),
        )
    }

    /// `offsets`, computed.
    pub fn sample_offsets(&self) -> (v: Vec<(i32, i32)>)
        ensures
            v@ == self.offsets(),
    {
        let w = self.grid_side() as i32;
        let mut v: Vec<(i32, i32)> = Vec::new();
        let mut x: i32 = 1;
        while x <= w
            invariant
                1 <= x <= w + 1,
                1 <= w <= 5,
                w == self.side(),
                v@.len() == (x - 1) * w,
                forall|i: int| 0 <= i < v@.len() ==> v@[i] == #[trigger] self.offsets()[i],
            decreases w + 1 - x,
        {
            let mut y: i32 = 1;
            while y <= w
                invariant
                    1 <= y <= w + 1,
                    1 <= x <= w,
                    1 <= w <= 5,
                    w == self.side(),
                    v@.len() == (x - 1) * w + (y - 1),
                    forall|i: int| 0 <= i < v@.len() ==> v@[i] == #[trigger] self.offsets()[i],
                decreases w + 1 - y,
            {
                proof {
                    let i = (x - 1) * w + (y - 1);
                    assert(i / (w as int) == x - 1 && i % (w as int) == y - 1) by (nonlinear_arith)
                        requires
                            i == (x - 1) * w + (y - 1),
                            1 <= y <= w,
                            1 <= x <= w,
                            1 <= w <= 5,
                    ;
                    assert(i < w * w) by (nonlinear_arith)
                        requires
                            i == (x - 1) * w + (y - 1),
                            1 <= y <= w,
                            1 <= x <= w,
                    ;
                }
                v.push((2 * x - w - 1, 2 * y - w - 1));
                y += 1;
            }
            x += 1;
        }
        proof {
            assert(v@.len() == w * w) by (nonlinear_arith)
                requires
                    v@.len() == (x - 1) * w,
                    x == w + 1,
            ;
            assert(v@ =~= self.offsets());
        }
        v
    }
}

/// `vulkano::format::Format`, read as declared: the formats without fields.
#[verifier::external_type_specification]
pub struct ExFormat(Format);

/// The choices that govern rasterizing.
#[derive(Clone, Copy, Debug, PartialEq)]
pub struct ImtRasterOpts {
    /// How many rays are cast.
    pub fill_quality: ImtFillQuality,
    /// How many samples are taken in each subpixel.
    pub sample_quality: ImtSampleQuality,
    /// Whether bearings are whole pixels, the bitmap being moved to match.
    pub align_whole_pixels: bool,
    /// Set by the constructors of the rasterizer.
    pub cpu_rasterization: bool,
    /// Whether an image is handed out in place of raw data, on the GPU only.
    pub raster_to_image: bool,
    /// The format of the image of a bitmap.
    pub raster_image_format: Format,
}

impl ImtRasterOpts {
    /// The samples in each subpixel.
    pub fn sample_count(&self) -> (n: usize)
        ensures
            n == self.sample_quality.samples(),
    {
        self.sample_quality.sample_count()
    }

    /// The rays from each sample.
    pub fn ray_count(&self) -> (n: usize)
        ensures
            n == self.fill_quality.rays(),
    {
        self.fill_quality.ray_count()
    }
}

impl Default for ImtRasterOpts {
    /// Rasterizing of the usual quality on the GPU, to an image, with
    /// bearings on whole pixels.
    fn default() -> (opts: Self)
        ensures
            opts.fill_quality == ImtFillQuality::Normal,
            opts.sample_quality == ImtSampleQuality::Normal,
            opts.align_whole_pixels,
            !opts.cpu_rasterization,
            opts.raster_to_image,
            opts.raster_image_format == Format::R8G8B8A8_UNORM,
    {
        ImtRasterOpts {
            fill_quality: ImtFillQuality::Normal,
            sample_quality: ImtSampleQuality::Normal,
            align_whole_pixels: true,
            cpu_rasterization: false,
            raster_to_image: true,
            raster_image_format: Format::R8G8B8A8_UNORM,
        }
    }
}

/// `crossbeam::sync::Unparker`, carried through unread.
#[verifier::external_type_specification]
#[verifier::external_body]
pub struct ExUnparker(Unparker);

/// `crossbeam::sync::Unparker::unpark`: hands the parked thread its token.
/// Nothing is claimed of it.
#[verifier::external_body]
fn unpark(waiter: &Unparker) {
    waiter.unpark();
}

/// Wakes each of the waiters, once, in order.
pub fn wake_all(waiters: Vec<Unparker>) {
    let mut i: usize = 0;
    while i < waiters.len()
        invariant
            i <= waiters.len(),
        decreases waiters.len() - i,
    {
        unpark(&waiters[i]);
        i += 1;
    }
}

/// What the cache holds for one glyph at one text height.
pub enum RasterCacheState<T> {
    /// The bitmap, for good.
    Completed(T),
    /// Somebody is rasterizing; these wait for the outcome.
    Incomplete(Vec<Unparker>),
    /// The last attempt failed; another may be made.
    Errored(ImtError),
}

/// A state of the cache in contracts.
pub enum ImtCacheEntry<T> {
    Completed(T),
    Incomplete(Seq<Unparker>),
    Errored(ImtError),
}

impl<T> View for RasterCacheState<T> {
    type V = ImtCacheEntry<T>;

    open spec fn view(&self) -> ImtCacheEntry<T> {
        match self {
            RasterCacheState::Completed(b) => ImtCacheEntry::Completed(*b),
            RasterCacheState::Incomplete(w) => ImtCacheEntry::Incomplete(w@),
            RasterCacheState::Errored(e) => ImtCacheEntry::Errored(*e),
        }
    }
}

/// What a request finds in the cache.
#[derive(Clone, Copy, Debug, PartialEq, Eq, Structural)]
pub enum ImtCacheStatus {
    Absent,
    Completed,
    Incomplete,
    Errored,
}

/// The key of the glyph `index` at the text height of bit pattern `bits`.
pub open spec fn cache_key(bits: u32, index: u16) -> u64 {
    (bits as int * 0x1_0000 + index as int) as u64
}

/// Different glyphs or heights have different keys.
pub proof fn lemma_cache_key_injective(b1: u32, i1: u16, b2: u32, i2: u16)
    requires
        cache_key(b1, i1) == cache_key(b2, i2),
    ensures
        b1 == b2,
        i1 == i2,
{
}

/// Whether rasterizing of `k` is under way.
pub open spec fn in_progress<T>(m: Map<u64, ImtCacheEntry<T>>, k: u64) -> bool {
    m.contains_key(k) && m[k] is Incomplete
}

/// Whether rasterizing of `k` may begin: nothing is held for it, or a failure.
pub open spec fn claimable<T>(m: Map<u64, ImtCacheEntry<T>>, k: u64) -> bool {
    !m.contains_key(k) || m[k] is Errored
}

/// The cache after rasterizing of `k` was claimed: under way without
/// waiters where it could begin, else as before.
pub open spec fn after_claim<T>(m: Map<u64, ImtCacheEntry<T>>, k: u64) -> Map<u64, ImtCacheEntry<T>> {
    if claimable(m, k) {
        m.insert(k, ImtCacheEntry::Incomplete(Seq::empty()))
    } else {
        m
    }
}

/// Those who wait for `k`.
pub open spec fn waiting<T>(m: Map<u64, ImtCacheEntry<T>>, k: u64) -> Seq<Unparker> {
    if in_progress(m, k) {
        m[k]->Incomplete_0
    } else {
        Seq::empty()
    }
}

/// The cache after `w` asked to wait for `k`: the last of the waiters where
/// rasterizing is under way, else as before.
pub open spec fn after_enlist<T>(m: Map<u64, ImtCacheEntry<T>>, k: u64, w: Unparker) -> Map<
    u64,
    ImtCacheEntry<T>,
> {
    if in_progress(m, k) {
        m.insert(k, ImtCacheEntry::Incomplete(waiting(m, k).push(w)))
    } else {
        m
    }
}

/// The state that an outcome of rasterizing leaves.
pub open spec fn outcome<T>(result: Result<T, ImtError>) -> ImtCacheEntry<T> {
    match result {
        Ok(b) => ImtCacheEntry::Completed(b),
        Err(e) => ImtCacheEntry::Errored(e),
    }
}

/// The cache after the outcome for `k` was published: the outcome where
/// rasterizing was under way, else as before.
pub open spec fn after_publish<T>(
    m: Map<u64, ImtCacheEntry<T>>,
    k: u64,
    result: Result<T, ImtError>,
) -> Map<u64, ImtCacheEntry<T>> {
    if in_progress(m, k) {
        m.insert(k, outcome(result))
    } else {
        m
    }
}

/// The key under which a bitmap belongs: that of its glyph at its text
/// height.
pub open spec fn bitmap_key<I>(bitmap: ImtGlyphBitmap<I>) -> u64 {
    cache_key(bitmap.spec_height().bits(), bitmap.spec_parsed().glyph_index)
}

/// Whether each bitmap stands under its own key.
pub open spec fn keyed<I>(m: Map<u64, ImtCacheEntry<Arc<ImtGlyphBitmap<I>>>>) -> bool {
    forall|k: u64|
        m.contains_key(k) ==> (#[trigger] m[k] matches ImtCacheEntry::Completed(b) ==> bitmap_key(
            *b,
        ) == k)
}

/// The outcome that is published for `k`: a bitmap that belongs under
/// another key counts as a failure.
pub open spec fn checked<I>(result: Result<Arc<ImtGlyphBitmap<I>>, ImtError>, k: u64) -> Result<
    Arc<ImtGlyphBitmap<I>>,
    ImtError,
> {
    match result {
        Ok(b) => if bitmap_key(*b) == k {
            Ok(b)
        } else {
            Err(ImtError { src: ImtErrorSrc::Bitmap, ty: ImtErrorTy::FileBadValue })
        },
        Err(e) => Err(e),
    }
}

/// The rasterizer's choices and its cache of bitmaps, one state for each
/// glyph at each text height. Each bitmap in it is that of the glyph and
/// the height under which it stands.
pub struct ImtRaster<I> {
    opts: ImtRasterOpts,
    cache: BTreeMap<u64, RasterCacheState<Arc<ImtGlyphBitmap<I>>>>,
}

impl<I> ImtRaster<I> {
    #[verifier::type_invariant]
    spec fn bitmaps_keyed(self) -> bool {
        keyed(self.entries())
    }

    /// The choices of the rasterizer.
    pub closed spec fn spec_opts(self) -> ImtRasterOpts {
        self.opts
    }

    /// The states of the cache by key.
    pub closed spec fn entries(self) -> Map<u64, ImtCacheEntry<Arc<ImtGlyphBitmap<I>>>> {
        self.cache@.map_values(|s: RasterCacheState<Arc<ImtGlyphBitmap<I>>>| s@)
    }

    /// A rasterizer for the CPU with an empty cache.
    pub fn new_cpu(opts: ImtRasterOpts) -> (r: Result<Self, ImtError>)
        ensures
            r matches Ok(raster) && raster.entries() == Map::<
                u64,
                ImtCacheEntry<Arc<ImtGlyphBitmap<I>>>,
            >::empty() && raster.spec_opts() == (ImtRasterOpts { cpu_rasterization: true, ..opts }),
    {
        let mut opts = opts;
        opts.cpu_rasterization = true;
        Ok(Self::with(opts))
    }

    /// A rasterizer for the GPU with an empty cache.
    pub fn new_gpu(opts: ImtRasterOpts) -> (r: Result<Self, ImtError>)
        ensures
            r matches Ok(raster) && raster.entries() == Map::<
                u64,
                ImtCacheEntry<Arc<ImtGlyphBitmap<I>>>,
            >::empty() && raster.spec_opts() == (ImtRasterOpts { cpu_rasterization: false, ..opts }),
    {
        let mut opts = opts;
        opts.cpu_rasterization = false;
        Ok(Self::with(opts))
    }

    fn with(opts: ImtRasterOpts) -> (raster: Self)
        ensures
            raster.entries() == Map::<u64, ImtCacheEntry<Arc<ImtGlyphBitmap<I>>>>::empty(),
            raster.spec_opts() == opts,
    {
        let cache: BTreeMap<u64, RasterCacheState<Arc<ImtGlyphBitmap<I>>>> = BTreeMap::new();
        proof {
            assert(cache@.map_values(|s: RasterCacheState<Arc<ImtGlyphBitmap<I>>>| s@) =~= Map::<
                u64,
                ImtCacheEntry<Arc<ImtGlyphBitmap<I>>>,
            >::empty());
        }
        ImtRaster { opts, cache }
    }

    /// The choices of the rasterizer.
    pub fn opts(&self) -> (o: ImtRasterOpts)
        ensures
            o == self.spec_opts(),
    {
        self.opts
    }

    /// The samples in each subpixel.
    pub fn sample_count(&self) -> (n: usize)
        ensures
            n == self.spec_opts().sample_quality.samples(),
    {
        self.opts.sample_count()
    }

    /// The rays from each sample.
    pub fn ray_count(&self) -> (n: usize)
        ensures
            n == self.spec_opts().fill_quality.rays(),
    {
        self.opts.ray_count()
    }

    /// `cache_key` of the glyph at the height.
    pub fn key(height: ImtTextHeight, index: u16) -> (k: u64)
        ensures
            k == cache_key(height.bits(), index),
    {
        height.to_bits() as u64 * 0x1_0000 + index as u64
    }

    /// What the cache holds for the glyph at the height.
    pub fn status(&self, height: ImtTextHeight, index: u16) -> (s: ImtCacheStatus)
        ensures
            ({
                let k = cache_key(height.bits(), index);
                let m = self.entries();
                match s {
                    ImtCacheStatus::Absent => !m.contains_key(k),
                    ImtCacheStatus::Completed => m.contains_key(k) && m[k] is Completed,
                    ImtCacheStatus::Incomplete => m.contains_key(k) && m[k] is Incomplete,
                    ImtCacheStatus::Errored => m.contains_key(k) && m[k] is Errored,
                }
            }),
    {
        let k = Self::key(height, index);
        match self.cache.get(&k) {
            None => ImtCacheStatus::Absent,
            Some(RasterCacheState::Completed(_)) => ImtCacheStatus::Completed,
            Some(RasterCacheState::Incomplete(_)) => ImtCacheStatus::Incomplete,
            Some(RasterCacheState::Errored(_)) => ImtCacheStatus::Errored,
        }
    }

    /// The bitmap of the glyph at the height, once it is completed: a
    /// bitmap of that glyph at that height.
    pub fn completed(&self, height: ImtTextHeight, index: u16) -> (r: Option<
        &Arc<ImtGlyphBitmap<I>>,
    >)
        ensures
            ({
                let k = cache_key(height.bits(), index);
                let m = self.entries();
                &&& r is Some <==> m.contains_key(k) && m[k] is Completed
                &&& r matches Some(b) ==> m[k] == ImtCacheEntry::Completed(*b)
                    && b.spec_parsed().glyph_index == index && b.spec_height().bits()
                    == height.bits() && b.measured()
            }),
    {
        proof {
            use_type_invariant(self);
        }
        let k = Self::key(height, index);
        match self.cache.get(&k) {
            Some(RasterCacheState::Completed(b)) => {
                let ghost bits = b.spec_height().bits();
                let ghost glyph = b.spec_parsed().glyph_index;
                proof {
                    assert(self.entries()[k] == ImtCacheEntry::Completed(*b));
                    lemma_cache_key_injective(bits, glyph, height.bits(), index);
                }
                let _ = b.metrics();
                Some(b)
            },
            _ => None,
        }
    }

    /// Claims the rasterizing of the glyph at the height. The claim is
    /// granted where the cache holds nothing for it, or a failure; it is then
    /// under way, without waiters. Else nothing changes.
    pub fn claim(&mut self, height: ImtTextHeight, index: u16) -> (granted: bool)
        ensures
            granted == claimable(old(self).entries(), cache_key(height.bits(), index)),
            final(self).entries() == after_claim(
                old(self).entries(),
                cache_key(height.bits(), index),
            ),
            final(self).spec_opts() == old(self).spec_opts(),
    {
        proof {
            use_type_invariant(&*self);
        }
        let k = Self::key(height, index);
        let free = match self.cache.get(&k) {
            None => true,
            Some(RasterCacheState::Errored(_)) => true,
            _ => false,
        };
        if free {
            let mut cache = self.take();
            cache.insert(k, RasterCacheState::Incomplete(Vec::new()));
            proof {
                assert(cache@.map_values(|s: RasterCacheState<Arc<ImtGlyphBitmap<I>>>| s@)
                    =~= after_claim(old(self).entries(), k));
            }
            self.cache = cache;
        }
        free
    }

    /// Adds `waiter` to those who wait for the glyph at the height, where
    /// its rasterizing is under way. Else nothing changes.
    pub fn enlist(&mut self, height: ImtTextHeight, index: u16, waiter: Unparker) -> (enlisted:
        bool)
        ensures
            enlisted == in_progress(old(self).entries(), cache_key(height.bits(), index)),
            final(self).entries() == after_enlist(
                old(self).entries(),
                cache_key(height.bits(), index),
                waiter,
            ),
            final(self).spec_opts() == old(self).spec_opts(),
    {
        proof {
            use_type_invariant(&*self);
        }
        let k = Self::key(height, index);
        let mut cache = self.take();
        let enlisted = match cache.remove(&k) {
            None => false,
            Some(RasterCacheState::Incomplete(mut waiters)) => {
                waiters.push(waiter);
                cache.insert(k, RasterCacheState::Incomplete(waiters));
                true
            },
            Some(other) => {
                cache.insert(k, other);
                false
            },
        };
        proof {
            if !enlisted {
                assert(cache@ =~= old(self).cache@);
            }
            assert(cache@.map_values(|s: RasterCacheState<Arc<ImtGlyphBitmap<I>>>| s@)
                =~= after_enlist(old(self).entries(), k, waiter));
        }
        self.cache = cache;
        enlisted
    }

    /// Publishes the outcome of rasterizing the glyph at the height: where
    /// it was under way the cache holds the outcome from now on, and those
    /// who waited are handed out, to be woken. A bitmap of another glyph or
    /// height is held as a failure. Where it was not under way nothing
    /// changes and nobody is handed out.
    pub fn publish(
        &mut self,
        height: ImtTextHeight,
        index: u16,
        result: Result<Arc<ImtGlyphBitmap<I>>, ImtError>,
    ) -> (waiters: Vec<Unparker>)
        ensures
            waiters@ == waiting(old(self).entries(), cache_key(height.bits(), index)),
            final(self).entries() == after_publish(
                old(self).entries(),
                cache_key(height.bits(), index),
                checked(result, cache_key(height.bits(), index)),
            ),
            final(self).spec_opts() == old(self).spec_opts(),
    {
        proof {
            use_type_invariant(&*self);
        }
        let k = Self::key(height, index);
        let state = match result {
            Ok(b) => {
                if b.parsed().glyph_index == index && b.height().to_bits() == height.to_bits() {
                    RasterCacheState::Completed(b)
                } else {
                    let ghost bits = b.spec_height().bits();
                    let ghost glyph = b.spec_parsed().glyph_index;
                    proof {
                        if cache_key(bits, glyph) == k {
                            lemma_cache_key_injective(bits, glyph, height.bits(), index);
                        }
                    }
                    RasterCacheState::Errored(
                        ImtError::src_and_ty(ImtErrorSrc::Bitmap, ImtErrorTy::FileBadValue),
                    )
                }
            },
            Err(e) => RasterCacheState::Errored(e),
        };
        assert(state@ == outcome(checked(result, k)));
        let mut cache = self.take();
        let waiters = match cache.remove(&k) {
            None => Vec::new(),
            Some(RasterCacheState::Incomplete(waiters)) => {
                cache.insert(k, state);
                waiters
            },
            Some(other) => {
                cache.insert(k, other);
                Vec::new()
            },
        };
        proof {
            if !in_progress(old(self).entries(), k) {
                assert(cache@ =~= old(self).cache@);
            }
            assert(cache@.map_values(|s: RasterCacheState<Arc<ImtGlyphBitmap<I>>>| s@)
                =~= after_publish(old(self).entries(), k, checked(result, k)));
        }
        self.cache = cache;
        waiters
    }

    /// Takes the cache out, to change it and put it back.
    fn take(&mut self) -> (cache: BTreeMap<u64, RasterCacheState<Arc<ImtGlyphBitmap<I>>>>)
        ensures
            cache == old(self).cache,
            final(self).opts == old(self).opts,
    {
        let mut cache: BTreeMap<u64, RasterCacheState<Arc<ImtGlyphBitmap<I>>>> = BTreeMap::new();
        proof {
            assert(cache@.map_values(|s: RasterCacheState<Arc<ImtGlyphBitmap<I>>>| s@) =~= Map::<
                u64,
                ImtCacheEntry<Arc<ImtGlyphBitmap<I>>>,
            >::empty());
        }
        std::mem::swap(&mut cache, &mut self.cache);
        cache
    }
}

/// A step of the protocol of the cache.
pub enum ImtCacheOp<T> {
    Claim(u64),
    Enlist(u64, Unparker),
    Publish(u64, Result<T, ImtError>),
}

/// The cache after one step.
pub open spec fn after_op<T>(m: Map<u64, ImtCacheEntry<T>>, op: ImtCacheOp<T>) -> Map<
    u64,
    ImtCacheEntry<T>,
> {
    match op {
        ImtCacheOp::Claim(k) => after_claim(m, k),
        ImtCacheOp::Enlist(k, w) => after_enlist(m, k, w),
        ImtCacheOp::Publish(k, r) => after_publish(m, k, r),
    }
}

/// The cache after the steps `ops`, in order.
pub open spec fn after_ops<T>(m: Map<u64, ImtCacheEntry<T>>, ops: Seq<ImtCacheOp<T>>) -> Map<
    u64,
    ImtCacheEntry<T>,
>
    decreases ops.len(),
{
    if ops.len() == 0 {
        m
    } else {
        after_op(after_ops(m, ops.drop_last()), ops.last())
    }
}

/// By how much a step changes the number of those who rasterize `k`: a
/// claim that is granted adds one, an outcome that is taken removes one.
pub open spec fn flight_change<T>(m: Map<u64, ImtCacheEntry<T>>, op: ImtCacheOp<T>, k: u64) -> int {
    match op {
        ImtCacheOp::Claim(j) => if j == k && claimable(m, k) {
            1
        } else {
            0
        },
        ImtCacheOp::Publish(j, _) => if j == k && in_progress(m, k) {
            -1
        } else {
            0
        },
        ImtCacheOp::Enlist(_, _) => 0,
    }
}

/// How many rasterize `k` after the steps `ops`: claims granted less
/// outcomes taken.
pub open spec fn in_flight<T>(m: Map<u64, ImtCacheEntry<T>>, ops: Seq<ImtCacheOp<T>>, k: u64) -> int
    decreases ops.len(),
{
    if ops.len() == 0 {
        0
    } else {
        in_flight(m, ops.drop_last(), k) + flight_change(
            after_ops(m, ops.drop_last()),
            ops.last(),
            k,
        )
    }
}

/// How often the steps `ops` completed `k`: outcomes `Ok` that were taken.
pub open spec fn completions<T>(m: Map<u64, ImtCacheEntry<T>>, ops: Seq<ImtCacheOp<T>>, k: u64) -> int
    decreases ops.len(),
{
    if ops.len() == 0 {
        0
    } else {
        completions(m, ops.drop_last(), k) + if ops.last() matches ImtCacheOp::Publish(j, Ok(_))
            && j == k && in_progress(after_ops(m, ops.drop_last()), k) {
            1int
        } else {
            0int
        }
    }
}

/// Those whom the steps `ops` took as waiters for `k`, in order.
pub open spec fn enlisted<T>(m: Map<u64, ImtCacheEntry<T>>, ops: Seq<ImtCacheOp<T>>, k: u64) -> Seq<
    Unparker,
>
    decreases ops.len(),
{
    if ops.len() == 0 {
        Seq::empty()
    } else {
        let before = enlisted(m, ops.drop_last(), k);
        match ops.last() {
            ImtCacheOp::Enlist(j, w) => if j == k && in_progress(
                after_ops(m, ops.drop_last()),
                k,
            ) {
                before.push(w)
            } else {
                before
            },
            _ => before,
        }
    }
}

/// Those whom the steps `ops` handed out to be woken for `k`, in order.
pub open spec fn released<T>(m: Map<u64, ImtCacheEntry<T>>, ops: Seq<ImtCacheOp<T>>, k: u64) -> Seq<
    Unparker,
>
    decreases ops.len(),
{
    if ops.len() == 0 {
        Seq::empty()
    } else {
        let before = released(m, ops.drop_last(), k);
        if ops.last() matches ImtCacheOp::Publish(j, _) && j == k {
            before + waiting(after_ops(m, ops.drop_last()), k)
        } else {
            before
        }
    }
}

/// What the cache holds for `k`, if anything.
pub open spec fn entry<T>(m: Map<u64, ImtCacheEntry<T>>, k: u64) -> Option<ImtCacheEntry<T>> {
    if m.contains_key(k) {
        Some(m[k])
    } else {
        None
    }
}

/// Whether one step may lead from `before` to `after`: nothing changes; or
/// rasterizing begins, without waiters, where nothing was held or a failure;
/// or one more waits while it is under way; or it ends, in a bitmap or in a
/// failure.
pub open spec fn may_follow<T>(
    before: Option<ImtCacheEntry<T>>,
    after: Option<ImtCacheEntry<T>>,
) -> bool {
    ||| after == before
    ||| (before is None || before matches Some(ImtCacheEntry::Errored(_))) && after == Some(
        ImtCacheEntry::<T>::Incomplete(Seq::empty()),
    )
    ||| before matches Some(ImtCacheEntry::Incomplete(waiters)) && match after {
        Some(ImtCacheEntry::Incomplete(more)) => more.len() == waiters.len() + 1
            && more.drop_last() == waiters,
        Some(_) => true,
        None => false,
    }
}

/// What a step leaves for `k`: what the step says where it works on `k`
/// and takes effect, else what was there.
pub proof fn lemma_entry_after<T>(m: Map<u64, ImtCacheEntry<T>>, op: ImtCacheOp<T>, k: u64)
    ensures
        entry(after_op(m, op), k) == match op {
            ImtCacheOp::Claim(j) => if j == k && claimable(m, k) {
                Some(ImtCacheEntry::<T>::Incomplete(Seq::empty()))
            } else {
                entry(m, k)
            },
            ImtCacheOp::Enlist(j, w) => if j == k && in_progress(m, k) {
                Some(ImtCacheEntry::<T>::Incomplete(waiting(m, k).push(w)))
            } else {
                entry(m, k)
            },
            ImtCacheOp::Publish(j, r) => if j == k && in_progress(m, k) {
                Some(outcome(r))
            } else {
                entry(m, k)
            },
        },
{
}

/// The states of a glyph follow one another in one order: from nothing or
/// failure to under way, and from under way to a bitmap or a failure.
pub proof fn lemma_states_in_order<T>(m: Map<u64, ImtCacheEntry<T>>, op: ImtCacheOp<T>, k: u64)
    ensures
        may_follow(entry(m, k), entry(after_op(m, op), k)),
{
    lemma_entry_after(m, op, k);
    match op {
        ImtCacheOp::Enlist(j, w) => {
            if j == k && in_progress(m, k) {
                assert(waiting(m, k).push(w).drop_last() =~= waiting(m, k));
            }
        },
        _ => {},
    }
}

/// A completed bitmap stays: whatever steps follow, the cache holds it.
pub proof fn lemma_completed_stays<T>(
    m: Map<u64, ImtCacheEntry<T>>,
    ops: Seq<ImtCacheOp<T>>,
    k: u64,
    bitmap: T,
)
    requires
        m.contains_key(k),
        m[k] == ImtCacheEntry::Completed(bitmap),
    ensures
        after_ops(m, ops).contains_key(k),
        after_ops(m, ops)[k] == ImtCacheEntry::Completed(bitmap),
    decreases ops.len(),
{
    if ops.len() > 0 {
        lemma_completed_stays(m, ops.drop_last(), k, bitmap);
        lemma_entry_after(after_ops(m, ops.drop_last()), ops.last(), k);
    }
}

/// At most one rasterizes a glyph at a time: from a cache in which `k` is
/// not under way, whatever the steps, claims granted exceed outcomes taken
/// by one while `k` is under way and by nothing otherwise.
pub proof fn lemma_single_flight<T>(m: Map<u64, ImtCacheEntry<T>>, ops: Seq<ImtCacheOp<T>>, k: u64)
    requires
        !in_progress(m, k),
    ensures
        in_flight(m, ops, k) == if in_progress(after_ops(m, ops), k) {
            1int
        } else {
            0int
        },
    decreases ops.len(),
{
    if ops.len() > 0 {
        lemma_single_flight(m, ops.drop_last(), k);
        lemma_entry_after(after_ops(m, ops.drop_last()), ops.last(), k);
    }
}

/// A glyph is completed once at most: from a cache in which `k` is not
/// completed, whatever the steps, one outcome `Ok` was taken where the
/// cache holds a bitmap for `k`, and none otherwise.
pub proof fn lemma_completed_once<T>(m: Map<u64, ImtCacheEntry<T>>, ops: Seq<ImtCacheOp<T>>, k: u64)
    requires
        !(m.contains_key(k) && m[k] is Completed),
    ensures
        completions(m, ops, k) == if after_ops(m, ops).contains_key(k) && after_ops(m, ops)[k]
            is Completed {
            1int
        } else {
            0int
        },
    decreases ops.len(),
{
    if ops.len() > 0 {
        lemma_completed_once(m, ops.drop_last(), k);
        let before = after_ops(m, ops.drop_last());
        lemma_entry_after(before, ops.last(), k);
        match ops.last() {
            ImtCacheOp::Publish(j, r) => {
                if j == k && in_progress(before, k) {
                    assert(entry(after_ops(m, ops), k) == Some(outcome(r)));
                }
            },
            _ => {},
        }
    }
}

/// Every waiter is handed out once: from a cache in which `k` is not under
/// way, whatever the steps, those taken as waiters are those handed out,
/// followed by those who still wait.
pub proof fn lemma_waiters_released_once<T>(
    m: Map<u64, ImtCacheEntry<T>>,
    ops: Seq<ImtCacheOp<T>>,
    k: u64,
)
    requires
        !in_progress(m, k),
    ensures
        enlisted(m, ops, k) == released(m, ops, k) + waiting(after_ops(m, ops), k),
    decreases ops.len(),
{
    if ops.len() > 0 {
        lemma_waiters_released_once(m, ops.drop_last(), k);
        let before = after_ops(m, ops.drop_last());
        let e = enlisted(m, ops.drop_last(), k);
        let r = released(m, ops.drop_last(), k);
        let w = waiting(before, k);
        assert(e == r + w);
        match ops.last() {
            ImtCacheOp::Claim(j) => {
                if j == k && claimable(before, k) {
                    assert(w =~= Seq::empty());
                    assert(waiting(after_ops(m, ops), k) =~= Seq::empty());
                }
            },
            ImtCacheOp::Enlist(j, u) => {
                if j == k && in_progress(before, k) {
                    assert(waiting(after_ops(m, ops), k) == w.push(u));
                    assert(e.push(u) =~= r + w.push(u));
                }
            },
            ImtCacheOp::Publish(j, _) => {
                if j == k {
                    assert(waiting(after_ops(m, ops), k) =~= Seq::empty());
                    assert(e =~= (r + w) + Seq::<Unparker>::empty());
                }
            },
        }
    } else {
        assert(enlisted(m, ops, k) =~= released(m, ops, k) + waiting(after_ops(m, ops), k));
    }
}

} // verus!
