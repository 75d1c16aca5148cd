use crate::error::{ImtError, ImtErrorSrc, ImtErrorTy};
use crate::parse::{ImtFontProps, ImtParsedGlyph};
use crate::flatten::{
    draw_geometry, lemma_outline_lines_empty, outline_fits, outline_lines, piece_fits,
};
use crate::primative::ImtPoint;
use crate::raster::{ImtRasterOpts, ImtSampleQuality};
use crate::scale::{
    ceil_div, div_ceil, lemma_floor_ceil, lemma_rounding_monotonic, ImtRatio, ImtScale,
    ImtTextHeight,
};
use std::sync::Arc;
use vstd::prelude::*;

verus! {

/// What rasterizing a glyph gave.
#[derive(Debug)]
pub enum ImtBitmapData<I> {
    /// Nothing to draw: no outline, or no extent.
    Empty,
    /// Linear red, green, blue and alpha for each pixel, row by row, each
    /// the bit pattern of an IEEE-754 single.
    LRGBA(Vec<u32>),
    /// An image held elsewhere, such as on a GPU.
    Image(I),
}

/// The size of a bitmap and where it lies against the origin of its glyph,
/// in pixels.
#[derive(Clone, Copy, Debug, PartialEq, Eq, Structural)]
pub struct ImtBitmapMetrics {
    pub width: u32,
    pub height: u32,
    pub bearing_x: ImtRatio,
    pub bearing_y: ImtRatio,
}

/// The outer boundary, in whole pixels, of `v` design units at scale `s`.
/// Where `direction` holds it is the upper one: `v` in pixels, rounded up,
/// and one pixel more. Else it is the lower one: `v` in pixels, rounded down.
pub open spec fn expand_rounded(s: ImtScale, v: int, direction: bool) -> int {
    if direction {
        s.ceil_px(v) + 1
    } else {
        s.floor_px(v)
    }
}

/// The pixels from the lower boundary of `lo` to the upper boundary of `hi`:
/// none where the boundaries lie the wrong way round.
pub open spec fn extent(s: ImtScale, lo: int, hi: int) -> int {
    let e = expand_rounded(s, hi, true) - expand_rounded(s, lo, false);
    if e < 0 {
        0
    } else {
        e
    }
}

/// The bearing of `n / d` pixels: the next whole pixel where bearings are
/// aligned, else the ratio itself.
pub open spec fn bearing(n: int, d: int, align: bool) -> ImtRatio {
    if align {
        ImtRatio { num: ceil_div(n, d) as i64, den: 1 }
    } else {
        ImtRatio { num: n as i64, den: d as u64 }
    }
}

/// The shift to the right that lands an aligned bitmap on its bearing: the
/// bearing of `n / d` less its ceiling, plus one.
pub open spec fn align_offset_x(n: int, d: int, align: bool) -> ImtRatio {
    if align {
        ImtRatio { num: (n - ceil_div(n, d) * d + d) as i64, den: d as u64 }
    } else {
        ImtRatio { num: 0, den: 1 }
    }
}

/// The shift upwards that lands an aligned bitmap on its bearing: the
/// ceiling of `n / d` less the bearing, less one.
pub open spec fn align_offset_y(n: int, d: int, align: bool) -> ImtRatio {
    if align {
        ImtRatio { num: (ceil_div(n, d) * d - n - d) as i64, den: d as u64 }
    } else {
        ImtRatio { num: 0, den: 1 }
    }
}

/// Whether `bits` is the pattern of a single from 0 to 1.
pub open spec fn unit_bits(bits: u32) -> bool {
    bits <= 0x3F80_0000
}

/// Whether `bits` is the pattern of a finite single that is not negative.
pub open spec fn finite_bits(bits: u32) -> bool {
    bits < 0x7F80_0000
}

/// Whether the value at place `i` of pixel data is in order. A colour is
/// finite and not negative. An alpha, the last of each four, is from 0 to 1,
/// and where it is 0 the three colours before it are 0 too.
pub open spec fn value_in_order(values: Seq<u32>, i: int) -> bool {
    if i % 4 == 3 {
        &&& unit_bits(values[i])
        &&& values[i] == 0 ==> values[i - 1] == 0 && values[i - 2] == 0 && values[i - 3] == 0
    } else {
        finite_bits(values[i])
    }
}

/// Whether `values` is the data of `len / 4` pixels: red, green, blue and
/// alpha for each, every value in order.
pub open spec fn pixel_data(values: Seq<u32>, len: int) -> bool {
    &&& values.len() == len
    &&& forall|i: int| 0 <= i < values.len() ==> #[trigger] value_in_order(values, i)
}

/// Whether `r` is a shift of a bitmap at a scale over `d`: nothing, or at
/// most a pixel either way, over `d`.
pub open spec fn shift_of(r: ImtRatio, d: int) -> bool {
    ||| r.num == 0 && r.den == 1
    ||| r.den == d && -d <= r.num <= d
}

/// The numerator of the shift `r` over `d`.
pub open spec fn shift_over(r: ImtRatio, d: int) -> int {
    if r.den == 1 {
        r.num * d
    } else {
        r.num as int
    }
}

/// A length in design units as the ratio `num / den`.
#[derive(Clone, Copy, Debug, PartialEq, Eq, Structural)]
pub struct ImtUnits {
    pub num: i128,
    pub den: u64,
}

/// `expand_rounded` for a coordinate.
pub fn expand_round(s: &ImtScale, v: i32, direction: bool) -> (r: i64)
    ensures
        r == expand_rounded(*s, v as int, direction),
        -0x100_0000_0000_0000 <= r <= 0x100_0000_0000_0001,
{
    if direction {
        s.ceil_pixels(v as i64) + 1
    } else {
        s.floor_pixels(v as i64)
    }
}

/// Where the law of sizes holds as written: with the low bound not above the
/// high one the extent is the ceiling of the high bound less the floor of the
/// low one, plus one, and is at least one.
pub proof fn lemma_extent(s: ImtScale, lo: int, hi: int)
    requires
        s.wf(),
        lo <= hi,
    ensures
        extent(s, lo, hi) == s.ceil_px(hi) - s.floor_px(lo) + 1,
        extent(s, lo, hi) >= 1,
{
    assert(lo * s.num() <= hi * s.num()) by (nonlinear_arith)
        requires
            lo <= hi,
            s.num() > 0,
    ;
    lemma_rounding_monotonic(lo * s.num(), hi * s.num(), s.den());
    lemma_floor_ceil(hi * s.num(), s.den());
}

/// Whether a bitmap of the glyph can be prepared: its size fits 32 bits and
/// each of its curves can be cut into lines.
pub open spec fn preparable(units_per_em: u16, parsed: ImtParsedGlyph, height: ImtTextHeight) -> bool {
    let s = ImtScale::of(height, units_per_em);
    &&& extent(s, parsed.min_x as int, parsed.max_x as int) <= u32::MAX
    &&& extent(s, parsed.min_y as int, parsed.max_y as int) <= u32::MAX
    &&& outline_fits(parsed.geometry@, s)
}

/// What a prepared bitmap of the glyph is: its metrics and shifts at the
/// text height, the lines of its whole outline, and the data `Empty` where
/// it is blank, none yet where it is not.
pub open spec fn prepared<I>(
    opts: ImtRasterOpts,
    props: ImtFontProps,
    parsed: ImtParsedGlyph,
    height: ImtTextHeight,
    b: ImtGlyphBitmap<I>,
) -> bool {
    &&& b.spec_parsed() == parsed
    &&& b.spec_props() == props
    &&& b.spec_height() == height
    &&& b.spec_aligned() == opts.align_whole_pixels
    &&& b.measured()
    &&& b.spec_lines() == outline_lines(
        parsed.geometry@,
        parsed.geometry@.len() as int,
        b.spec_scale(),
    )
    &&& b.spec_data() == if b.blank() {
        Some(ImtBitmapData::<I>::Empty)
    } else {
        None
    }
}

/// A prepared bitmap is determined by the glyph, the font, the text height
/// and the options: two of them agree in all but where they are held.
pub proof fn lemma_prepared_determined<I>(
    opts: ImtRasterOpts,
    props: ImtFontProps,
    parsed: ImtParsedGlyph,
    height: ImtTextHeight,
    b1: ImtGlyphBitmap<I>,
    b2: ImtGlyphBitmap<I>,
)
    requires
        prepared(opts, props, parsed, height, b1),
        prepared(opts, props, parsed, height, b2),
    ensures
        b1.spec_metrics() == b2.spec_metrics(),
        b1.spec_lines() == b2.spec_lines(),
        b1.spec_scale() == b2.spec_scale(),
        b1.spec_offset_x() == b2.spec_offset_x(),
        b1.spec_offset_y() == b2.spec_offset_y(),
        b1.spec_data() == b2.spec_data(),
{
}

/// Whether `b` is `before` with the pixel values `pixels` for its data.
pub open spec fn filled<I>(before: ImtGlyphBitmap<I>, pixels: Seq<u32>, b: ImtGlyphBitmap<I>) -> bool {
    &&& before.same_glyph(b)
    &&& b.spec_lines() == before.spec_lines()
    &&& b.spec_data() matches Some(ImtBitmapData::LRGBA(values)) && values@ == pixels
}

/// The pixel values of a bitmap, none where its data are not pixel values.
pub open spec fn pixel_values<I>(b: ImtGlyphBitmap<I>) -> Option<Seq<u32>> {
    match b.spec_data() {
        Some(ImtBitmapData::LRGBA(values)) => Some(values@),
        _ => None,
    }
}

/// A bitmap is determined by the glyph, the font, the text height, the
/// options and the pixel values that it was given: two bitmaps prepared
/// alike and filled with the same values agree in their metrics, lines,
/// shifts and pixel values.
pub proof fn lemma_filled_determined<I>(
    opts: ImtRasterOpts,
    props: ImtFontProps,
    parsed: ImtParsedGlyph,
    height: ImtTextHeight,
    pixels: Seq<u32>,
    p1: ImtGlyphBitmap<I>,
    p2: ImtGlyphBitmap<I>,
    b1: ImtGlyphBitmap<I>,
    b2: ImtGlyphBitmap<I>,
)
    requires
        prepared(opts, props, parsed, height, p1),
        prepared(opts, props, parsed, height, p2),
        filled(p1, pixels, b1),
        filled(p2, pixels, b2),
    ensures
        b1.spec_metrics() == b2.spec_metrics(),
        b1.spec_lines() == b2.spec_lines(),
        b1.spec_scale() == b2.spec_scale(),
        b1.spec_offset_x() == b2.spec_offset_x(),
        b1.spec_offset_y() == b2.spec_offset_y(),
        pixel_values(b1) == Some(pixels),
        pixel_values(b2) == Some(pixels),
{
}

/// A prepared bitmap is `Empty` exactly where the outline of its glyph has
/// no piece or its size has no extent.
pub proof fn lemma_prepared_empty<I>(
    opts: ImtRasterOpts,
    props: ImtFontProps,
    parsed: ImtParsedGlyph,
    height: ImtTextHeight,
    b: ImtGlyphBitmap<I>,
)
    requires
        prepared(opts, props, parsed, height, b),
    ensures
        b.spec_data() == Some(ImtBitmapData::<I>::Empty) <==> parsed.geometry@.len() == 0
            || b.spec_metrics().width == 0 || b.spec_metrics().height == 0,
        b.spec_data() is None || b.spec_data() == Some(ImtBitmapData::<I>::Empty),
{
    lemma_outline_lines_empty(
        parsed.geometry@,
        parsed.geometry@.len() as int,
        ImtScale::of(height, props.spec_units_per_em()),
    );
}

/// Aligned bearings are whole pixels.
pub proof fn lemma_aligned_bearing_whole(n: int, d: int)
    ensures
        bearing(n, d, true).is_whole(),
{
}

/// The law of sizes: a bitmap of a glyph whose box is not inverted is as
/// wide as the ceiling of the right of the box less the floor of its left,
/// plus one, in pixels, and as high as the ceiling of its top less the floor
/// of its bottom, plus one.
pub proof fn lemma_size_law<I>(b: ImtGlyphBitmap<I>)
    requires
        b.measured(),
        b.spec_scale().wf(),
        b.spec_parsed().min_x <= b.spec_parsed().max_x,
        b.spec_parsed().min_y <= b.spec_parsed().max_y,
    ensures
        b.spec_metrics().width == b.spec_scale().ceil_px(b.spec_parsed().max_x as int)
            - b.spec_scale().floor_px(b.spec_parsed().min_x as int) + 1,
        b.spec_metrics().height == b.spec_scale().ceil_px(b.spec_parsed().max_y as int)
            - b.spec_scale().floor_px(b.spec_parsed().min_y as int) + 1,
{
    lemma_extent(b.spec_scale(), b.spec_parsed().min_x as int, b.spec_parsed().max_x as int);
    lemma_extent(b.spec_scale(), b.spec_parsed().min_y as int, b.spec_parsed().max_y as int);
}

/// The bearings of a bitmap with aligned bearings are whole pixels.
pub proof fn lemma_bearings_whole<I>(b: ImtGlyphBitmap<I>)
    requires
        b.measured(),
        b.spec_aligned(),
    ensures
        b.spec_metrics().bearing_x.is_whole(),
        b.spec_metrics().bearing_y.is_whole(),
{
}

/// A glyph on its way to a bitmap: its metrics at one text height, the lines
/// of its outline, and, once it was rasterized, its data.
#[derive(Debug)]
pub struct ImtGlyphBitmap<I> {
    parsed: Arc<ImtParsedGlyph>,
    props: ImtFontProps,
    height: ImtTextHeight,
    aligned: bool,
    metrics: ImtBitmapMetrics,
    lines: Vec<(ImtPoint, ImtPoint)>,
    scale: ImtScale,
    offset_x: ImtRatio,
    offset_y: ImtRatio,
    data: Option<ImtBitmapData<I>>,
}

impl<I> ImtGlyphBitmap<I> {
    #[verifier::type_invariant]
    spec fn data_fits(&self) -> bool {
        &&& self.data matches Some(ImtBitmapData::LRGBA(v)) ==> pixel_data(
            v@,
            4 * self.metrics.width * self.metrics.height,
        )
        &&& self.scale.wf()
        &&& self.metrics.bearing_x.den == 1 || self.metrics.bearing_x.den == self.scale.den()
        &&& self.metrics.bearing_y.den == 1 || self.metrics.bearing_y.den == self.scale.den()
        &&& shift_of(self.offset_x, self.scale.den())
        &&& shift_of(self.offset_y, self.scale.den())
        &&& self.measured()
    }

    /// The measures of the font of the glyph.
    pub closed spec fn spec_props(&self) -> ImtFontProps {
        self.props
    }

    /// The text height.
    pub closed spec fn spec_height(&self) -> ImtTextHeight {
        self.height
    }

    /// Whether the bearings are whole pixels.
    pub closed spec fn spec_aligned(&self) -> bool {
        self.aligned
    }

    /// Whether the bitmap has the metrics and shifts of its glyph at its text
    /// height: the scale is the height over the units per em of the font, the
    /// size follows the law of sizes over the box of the glyph, the bearings
    /// lead from the left of the box and from the ascender down to its top,
    /// on whole pixels where bearings are aligned, and the shifts go with
    /// them. It holds of every bitmap.
    pub open spec fn measured(&self) -> bool {
        let parsed = self.spec_parsed();
        let s = ImtScale::of(self.spec_height(), self.spec_props().spec_units_per_em());
        let d = s.den();
        let nx = parsed.min_x * s.num();
        let ny = (self.spec_props().spec_ascender() - parsed.max_y) * s.num();
        let align = self.spec_aligned();
        &&& self.spec_scale() == s
        &&& self.spec_metrics().width == extent(s, parsed.min_x as int, parsed.max_x as int)
        &&& self.spec_metrics().height == extent(s, parsed.min_y as int, parsed.max_y as int)
        &&& self.spec_metrics().bearing_x == bearing(nx, d, align)
        &&& self.spec_metrics().bearing_y == bearing(ny, d, align)
        &&& self.spec_offset_x() == align_offset_x(nx, d, align)
        &&& self.spec_offset_y() == align_offset_y(ny, d, align)
    }

    /// The glyph.
    pub closed spec fn spec_parsed(&self) -> ImtParsedGlyph {
        *self.parsed
    }

    /// The size and the bearings.
    pub closed spec fn spec_metrics(&self) -> ImtBitmapMetrics {
        self.metrics
    }

    /// The lines of the outline, in parts of a design unit.
    pub closed spec fn spec_lines(&self) -> Seq<(ImtPoint, ImtPoint)> {
        self.lines@
    }

    /// Pixels per design unit.
    pub closed spec fn spec_scale(&self) -> ImtScale {
        self.scale
    }

    /// The shift of the bitmap to the right, in pixels.
    pub closed spec fn spec_offset_x(&self) -> ImtRatio {
        self.offset_x
    }

    /// The shift of the bitmap upwards, in pixels.
    pub closed spec fn spec_offset_y(&self) -> ImtRatio {
        self.offset_y
    }

    /// What rasterizing gave, if it was done.
    pub closed spec fn spec_data(&self) -> Option<ImtBitmapData<I>> {
        self.data
    }

    /// The metrics of the glyph `parsed` at the text height `height`: the
    /// size by the law of sizes over the box of the glyph, the bearings from
    /// the left of the box and from the ascender down to its top. No lines
    /// and no data yet. A size that does not fit 32 bits is refused.
    pub fn new(
        props: &ImtFontProps,
        parsed: Arc<ImtParsedGlyph>,
        height: ImtTextHeight,
        opts: &ImtRasterOpts,
    ) -> (r: Result<Self, ImtError>)
        ensures
            ({
                let s = ImtScale::of(height, props.spec_units_per_em());
                &&& r is Ok <==> extent(s, parsed.min_x as int, parsed.max_x as int) <= u32::MAX
                    && extent(s, parsed.min_y as int, parsed.max_y as int) <= u32::MAX
                &&& r matches Ok(b) ==> {
                    &&& b.spec_parsed() == *parsed
                    &&& b.spec_props() == *props
                    &&& b.spec_height() == height
                    &&& b.spec_aligned() == opts.align_whole_pixels
                    &&& b.measured()
                    &&& b.spec_lines().len() == 0
                    &&& b.spec_data() is None
                }
                &&& r matches Err(e) ==> e.src == ImtErrorSrc::Bitmap && e.ty
                    == ImtErrorTy::FileLimitExceeded
            }),
    {
        let scale = props.scale(height);
        let d = scale.denominator();
        let nx = scale.scaled(parsed.min_x as i64);
        let ny = scale.scaled(props.ascender() as i64 - parsed.max_y as i64);
        let (bearing_x, offset_x) = align_bearing(nx, d, opts.align_whole_pixels, false);
        let (bearing_y, offset_y) = align_bearing(ny, d, opts.align_whole_pixels, true);
        let height_px = expand_round(&scale, parsed.max_y, true) - expand_round(
            &scale,
            parsed.min_y,
            false,
        );
        let width_px = expand_round(&scale, parsed.max_x, true) - expand_round(
            &scale,
            parsed.min_x,
            false,
        );
        let width_px = if width_px < 0 {
            0
        } else {
            width_px
        };
        let height_px = if height_px < 0 {
            0
        } else {
            height_px
        };
        if width_px > u32::MAX as i64 || height_px > u32::MAX as i64 {
            return Err(ImtError::src_and_ty(ImtErrorSrc::Bitmap, ImtErrorTy::FileLimitExceeded));
        }
        Ok(
            ImtGlyphBitmap {
                parsed,
                props: *props,
                height,
                aligned: opts.align_whole_pixels,
                metrics: ImtBitmapMetrics {
                    width: width_px as u32,
                    height: height_px as u32,
                    bearing_x,
                    bearing_y,
                },
                offset_x,
                offset_y,
                data: None,
                lines: Vec::new(),
                scale,
            },
        )
    }

    /// Whether `other` differs from `self` at most in its lines and its data.
    pub open spec fn same_glyph(&self, other: Self) -> bool {
        &&& other.spec_parsed() == self.spec_parsed()
        &&& other.spec_props() == self.spec_props()
        &&& other.spec_height() == self.spec_height()
        &&& other.spec_aligned() == self.spec_aligned()
        &&& other.spec_metrics() == self.spec_metrics()
        &&& other.spec_scale() == self.spec_scale()
        &&& other.spec_offset_x() == self.spec_offset_x()
        &&& other.spec_offset_y() == self.spec_offset_y()
    }

    /// Whether every curve of the glyph can be cut into lines.
    pub open spec fn flattens(&self) -> bool {
        outline_fits(self.spec_parsed().geometry@, self.spec_scale())
    }

    /// The first steps of rasterizing the glyph at the text height: its
    /// metrics, the lines of its outline, and, where it is blank, the data
    /// `Empty`.
    pub fn prepare(
        props: &ImtFontProps,
        parsed: Arc<ImtParsedGlyph>,
        height: ImtTextHeight,
        opts: &ImtRasterOpts,
    ) -> (r: Result<Self, ImtError>)
        ensures
            r is Ok <==> preparable(props.spec_units_per_em(), *parsed, height),
            r matches Ok(b) ==> prepared(*opts, *props, *parsed, height, b),
            r matches Err(e) ==> e.src == ImtErrorSrc::Bitmap && e.ty
                == ImtErrorTy::FileLimitExceeded,
    {
        let mut bitmap = match Self::new(props, parsed, height, opts) {
            Err(e) => {
                return Err(e);
            },
            Ok(bitmap) => bitmap,
        };
        match bitmap.create_outline() {
            Err(e) => {
                return Err(e);
            },
            Ok(_) => {},
        }
        bitmap.raster_blank();
        Ok(bitmap)
    }

    /// Appends the lines that stand for the outline of the glyph: each line
    /// as it is, each curve cut into lines. Where a curve needs more than
    /// 2^32 - 1 lines nothing is appended.
    pub fn create_outline(&mut self) -> (r: Result<(), ImtError>)
        ensures
            old(self).same_glyph(*final(self)),
            final(self).spec_data() == old(self).spec_data(),
            r is Ok <==> old(self).flattens(),
            r is Ok ==> final(self).spec_lines() == old(self).spec_lines() + outline_lines(
                old(self).spec_parsed().geometry@,
                old(self).spec_parsed().geometry@.len() as int,
                old(self).spec_scale(),
            ),
            r matches Err(e) ==> final(self).spec_lines() == old(self).spec_lines() && e.src
                == ImtErrorSrc::Bitmap && e.ty == ImtErrorTy::FileLimitExceeded,
    {
        proof {
            use_type_invariant(&*self);
        }
        let mut all: Vec<(ImtPoint, ImtPoint)> = Vec::new();
        let mut k: usize = 0;
        while k < self.lines.len()
            invariant
                k <= self.lines@.len(),
                *self == *old(self),
                all@ == self.lines@.take(k as int),
            decreases self.lines@.len() - k,
        {
            all.push(self.lines[k]);
            proof {
                assert(self.lines@.take(k + 1) =~= self.lines@.take(k as int).push(
                    self.lines@[k as int],
                ));
            }
            k += 1;
        }
        proof {
            assert(self.lines@.take(k as int) =~= self.lines@);
        }
        let n = self.parsed.geometry.len();
        let mut i: usize = 0;
        while i < n
            invariant
                i <= n,
                n == self.parsed.geometry@.len(),
                *self == *old(self),
                all@ == self.lines@ + outline_lines(self.parsed.geometry@, i as int, self.scale),
                forall|k: int|
                    0 <= k < i ==> piece_fits(#[trigger] self.parsed.geometry@[k], self.scale),
            decreases n - i,
        {
            let ghost before = all@;
            if !draw_geometry(&mut all, &self.parsed.geometry[i], &self.scale) {
                proof {
                    assert(!piece_fits(self.spec_parsed().geometry@[i as int], self.spec_scale()));
                }
                return Err(
                    ImtError::src_and_ty(ImtErrorSrc::Bitmap, ImtErrorTy::FileLimitExceeded),
                );
            }
            proof {
                assert(all@ =~= self.lines@ + outline_lines(
                    self.parsed.geometry@,
                    i + 1,
                    self.scale,
                ));
            }
            i += 1;
        }
        self.lines = all;
        Ok(())
    }

    /// Whether there is nothing to draw: no line, or no extent.
    pub open spec fn blank(&self) -> bool {
        self.spec_metrics().width == 0 || self.spec_metrics().height == 0
            || self.spec_lines().len() == 0
    }

    /// `blank`, computed.
    pub fn is_blank(&self) -> (b: bool)
        ensures
            b == self.blank(),
    {
        self.metrics.width == 0 || self.metrics.height == 0 || self.lines.len() == 0
    }

    /// The first step of rasterizing: a blank glyph gets the data `Empty`
    /// and is done; any other is left as it is, for its pixels to be
    /// computed.
    pub fn raster_blank(&mut self) -> (done: bool)
        ensures
            done == old(self).blank(),
            old(self).same_glyph(*final(self)),
            final(self).spec_lines() == old(self).spec_lines(),
            done ==> final(self).spec_data() == Some(ImtBitmapData::<I>::Empty),
            !done ==> final(self).spec_data() == old(self).spec_data(),
    {
        proof {
            use_type_invariant(&*self);
        }
        if self.is_blank() {
            self.data = Some(ImtBitmapData::Empty);
            true
        } else {
            false
        }
    }

    /// The number of values in the pixel data: four for each pixel.
    pub open spec fn data_len(&self) -> int {
        4 * self.spec_metrics().width * self.spec_metrics().height
    }

    /// `data_len`, where it fits the machine.
    pub fn buffer_len(&self) -> (n: Option<usize>)
        ensures
            n is Some <==> self.data_len() <= usize::MAX,
            n matches Some(len) ==> len == self.data_len(),
    {
        let w = self.metrics.width as u128;
        let h = self.metrics.height as u128;
        assert(w * h <= 0xffff_ffff * 0xffff_ffff) by (nonlinear_arith)
            requires
                w <= 0xffff_ffff,
                h <= 0xffff_ffff,
        ;
        let len: u128 = 4 * (w * h);
        assert(len == 4 * w * h) by (nonlinear_arith)
            requires
                len == 4 * (w * h),
        ;
        if len <= usize::MAX as u128 {
            Some(len as usize)
        } else {
            None
        }
    }

    /// Where the red value of the pixel in column `x` of row `y` stands in
    /// the pixel data; green, blue and alpha follow it.
    pub fn pixel_index(&self, x: u32, y: u32) -> (i: usize)
        requires
            x < self.spec_metrics().width,
            y < self.spec_metrics().height,
            self.data_len() <= usize::MAX,
        ensures
            i == (y * self.spec_metrics().width + x) * 4,
            i + 3 < self.data_len(),
    {
        let w = self.metrics.width as usize;
        let h = self.metrics.height as usize;
        assert((y * w + x) * 4 + 3 < 4 * w * h) by (nonlinear_arith)
            requires
                x < w,
                y < h,
        ;
        (y as usize * w + x as usize) * 4
    }

    /// The denominator of the places of samples on a grid of `side` by
    /// `side` in each subpixel.
    pub open spec fn sample_den(&self, side: int) -> int {
        (side + 1) * 6 * self.spec_scale().num()
    }

    /// Where, in design units across, a sample of the pixel in column `x` is
    /// taken: the column, less the shift of the bitmap, plus the offset
    /// `a / (side + 1)` of the sample and the `2 * channel + 1` sixths of the
    /// subpixel, all divided by the scale and counted from the left of the
    /// box of the glyph. The result is the numerator over `sample_den`.
    pub open spec fn sample_x(&self, x: int, a: int, side: int, channel: int) -> int {
        let d = self.spec_scale().den();
        (x * d - shift_over(self.spec_offset_x(), d)) * ((side + 1) * 6) + (a * 6 + (2 * channel
            + 1) * (side + 1)) * d + self.spec_parsed().min_x * self.sample_den(side)
    }

    /// Where, in design units upwards, a sample of the pixel in row `y` is
    /// taken: the row counted downwards, less the shift of the bitmap, plus
    /// the offset `b / (side + 1)` of the sample, divided by the scale and
    /// counted from the top of the box of the glyph. The result is the
    /// numerator over `sample_den`.
    pub open spec fn sample_y(&self, y: int, b: int, side: int) -> int {
        let d = self.spec_scale().den();
        (-y * d - shift_over(self.spec_offset_y(), d)) * ((side + 1) * 6) + (b * 6) * d
            + self.spec_parsed().max_y * self.sample_den(side)
    }

    /// The place in design units of the sample with the offset `offset`, as
    /// `ImtSampleQuality::sample_offsets` gives it, in the subpixel `channel`
    /// of the pixel in column `x` and row `y`.
    pub fn sample_position(
        &self,
        x: u32,
        y: u32,
        quality: ImtSampleQuality,
        offset: (i32, i32),
        channel: u8,
    ) -> (p: (ImtUnits, ImtUnits))
        ensures
            p.0.num == self.sample_x(
                x as int,
                offset.0 as int,
                quality.side() as int,
                channel as int,
            ),
            p.1.num == self.sample_y(y as int, offset.1 as int, quality.side() as int),
            p.0.den == self.sample_den(quality.side() as int),
            p.1.den == self.sample_den(quality.side() as int),
    {
        proof {
            use_type_invariant(self);
        }
        let d: i128 = self.scale.denominator() as i128;
        let n: i128 = self.scale.numerator() as i128;
        let side: i128 = quality.grid_side() as i128;
        assert(1 <= side <= 5);
        let cells: i128 = (side + 1) * 6;
        assert(0 < cells * n <= 36 * 0x100_0000) by (nonlinear_arith)
            requires
                0 < cells <= 36,
                0 < n < 0x100_0000,
        ;
        let den: i128 = cells * n;
        let shift_x: i128 = if self.offset_x.den as i128 == d {
            self.offset_x.num as i128
        } else {
            0
        };
        let shift_y: i128 = if self.offset_y.den as i128 == d {
            self.offset_y.num as i128
        } else {
            0
        };
        let (a, b) = (offset.0 as i128, offset.1 as i128);
        let thirds: i128 = 2 * channel as i128 + 1;
        assert(0 <= thirds * (side + 1) <= 511 * 6) by (nonlinear_arith)
            requires
                0 <= thirds <= 511,
                1 <= side <= 5,
        ;
        let sub: i128 = thirds * (side + 1);
        assert(0 <= x * d <= 0xffff_ffff * 0x8000_0000_0000 && 0 <= y * d <= 0xffff_ffff
            * 0x8000_0000_0000) by (nonlinear_arith)
            requires
                0 <= x <= 0xffff_ffff,
                0 <= y <= 0xffff_ffff,
                0 < d < 0x8000_0000_0000,
        ;
        let across: i128 = x as i128 * d - shift_x;
        let down: i128 = -(y as i128 * d) - shift_y;
        assert(-0x1_0000_0000_0000_0000_0000_0000 <= across * cells
            <= 0x1_0000_0000_0000_0000_0000_0000 && -0x1_0000_0000_0000_0000_0000_0000 <= down
            * cells <= 0x1_0000_0000_0000_0000_0000_0000) by (nonlinear_arith)
            requires
                -0x1_0000_0000_0000_0000_0000 <= across <= 0x1_0000_0000_0000_0000_0000,
                -0x1_0000_0000_0000_0000_0000 <= down <= 0x1_0000_0000_0000_0000_0000,
                0 < cells <= 36,
        ;
        assert(-0x1_0000_0000_0000_0000_0000_0000 <= (a * 6 + sub) * d
            <= 0x1_0000_0000_0000_0000_0000_0000 && -0x1_0000_0000_0000_0000_0000_0000 <= (b
            * 6) * d <= 0x1_0000_0000_0000_0000_0000_0000) by (nonlinear_arith)
            requires
                -0x8000_0000 <= a <= 0x8000_0000,
                -0x8000_0000 <= b <= 0x8000_0000,
                0 <= sub <= 511 * 6,
                0 < d < 0x8000_0000_0000,
        ;
        let min_x: i128 = self.parsed.min_x as i128;
        let max_y: i128 = self.parsed.max_y as i128;
        assert(-0x1_0000_0000_0000_0000 <= min_x * den <= 0x1_0000_0000_0000_0000
            && -0x1_0000_0000_0000_0000 <= max_y * den <= 0x1_0000_0000_0000_0000)
            by (nonlinear_arith)
            requires
                -0x8000_0000 <= min_x <= 0x8000_0000,
                -0x8000_0000 <= max_y <= 0x8000_0000,
                0 < den <= 36 * 0x100_0000,
        ;
        proof {
            assert(-(y * d) == -y * d) by (nonlinear_arith);
            assert(self.offset_x.num * 1 == self.offset_x.num && self.offset_y.num * 1
                == self.offset_y.num && 0 * d == 0) by (nonlinear_arith);
        }
        (
            ImtUnits { num: across * cells + (a * 6 + sub) * d + min_x * den, den: den as u64 },
            ImtUnits { num: down * cells + (b * 6) * d + max_y * den, den: den as u64 },
        )
    }

    /// Takes the pixel data that rasterizing gave. Data of another length
    /// than `data_len`, with a colour that is not finite or is negative, with
    /// an alpha that is not from 0 to 1, or with colour where alpha is 0, is
    /// refused and the glyph left as it is.
    pub fn set_lrgba(&mut self, pixels: Vec<u32>) -> (r: Result<(), ImtError>)
        ensures
            old(self).same_glyph(*final(self)),
            final(self).spec_lines() == old(self).spec_lines(),
            r is Ok <==> pixel_data(pixels@, old(self).data_len()),
            r is Ok ==> final(self).spec_data() == Some(ImtBitmapData::<I>::LRGBA(pixels)),
            r matches Err(e) ==> final(self).spec_data() == old(self).spec_data() && e.src
                == ImtErrorSrc::Bitmap && e.ty == ImtErrorTy::FileBadValue,
    {
        proof {
            use_type_invariant(&*self);
        }
        let want = self.buffer_len();
        let have = pixels.len();
        let mut fits = match want {
            Some(len) => have == len,
            None => false,
        };
        let mut i: usize = 0;
        while fits && i < have
            invariant
                have == pixels@.len(),
                i <= have,
                fits ==> pixels@.len() == self.data_len() && forall|k: int|
                    0 <= k < i ==> #[trigger] value_in_order(pixels@, k),
                !fits ==> !pixel_data(pixels@, self.data_len()),
                *self == *old(self),
            decreases have - i + if fits { 1int } else { 0int },
        {
            let in_order = if i % 4 == 3 {
                pixels[i] <= 0x3F80_0000 && (pixels[i] != 0 || (pixels[i - 1] == 0 && pixels[i - 2]
                    == 0 && pixels[i - 3] == 0))
            } else {
                pixels[i] < 0x7F80_0000
            };
            proof {
                assert(in_order == value_in_order(pixels@, i as int));
            }
            if in_order {
                i += 1;
            } else {
                fits = false;
            }
        }
        if fits {
            self.data = Some(ImtBitmapData::LRGBA(pixels));
            Ok(())
        } else {
            Err(ImtError::src_and_ty(ImtErrorSrc::Bitmap, ImtErrorTy::FileBadValue))
        }
    }

    /// Takes the image that rasterizing gave.
    pub fn set_image(&mut self, image: I)
        ensures
            old(self).same_glyph(*final(self)),
            final(self).spec_lines() == old(self).spec_lines(),
            final(self).spec_data() == Some(ImtBitmapData::Image(image)),
    {
        proof {
            use_type_invariant(&*self);
        }
        self.data = Some(ImtBitmapData::Image(image));
    }

    /// The glyph.
    pub fn parsed(&self) -> (p: &Arc<ImtParsedGlyph>)
        ensures
            **p == self.spec_parsed(),
    {
        &self.parsed
    }

    /// The lines of the outline.
    pub fn lines(&self) -> (l: &Vec<(ImtPoint, ImtPoint)>)
        ensures
            l@ == self.spec_lines(),
    {
        &self.lines
    }

    /// Pixels per design unit.
    pub fn scale(&self) -> (s: ImtScale)
        ensures
            s == self.spec_scale(),
    {
        self.scale
    }

    /// The shift to the right.
    pub fn offset_x(&self) -> (o: ImtRatio)
        ensures
            o == self.spec_offset_x(),
    {
        self.offset_x
    }

    /// The shift upwards.
    pub fn offset_y(&self) -> (o: ImtRatio)
        ensures
            o == self.spec_offset_y(),
    {
        self.offset_y
    }

    /// The size and the bearings: those of the glyph at the text height.
    pub fn metrics(&self) -> (m: ImtBitmapMetrics)
        ensures
            m == self.spec_metrics(),
            self.measured(),
    {
        proof {
            use_type_invariant(self);
        }
        self.metrics
    }

    /// The measures of the font of the glyph.
    pub fn props(&self) -> (p: ImtFontProps)
        ensures
            p == self.spec_props(),
    {
        self.props
    }

    /// The text height.
    pub fn height(&self) -> (h: ImtTextHeight)
        ensures
            h == self.spec_height(),
    {
        self.height
    }

    /// Whether the bearings are whole pixels.
    pub fn aligned(&self) -> (a: bool)
        ensures
            a == self.spec_aligned(),
    {
        self.aligned
    }

    /// The data, once the glyph was rasterized. Pixel data holds four values
    /// for each pixel: finite colours that are not negative and an alpha from
    /// 0 to 1, with no colour where alpha is 0.
    pub fn data(&self) -> (d: &Option<ImtBitmapData<I>>)
        ensures
            *d == self.spec_data(),
            *d matches Some(ImtBitmapData::LRGBA(v)) ==> pixel_data(v@, self.data_len()),
    {
        proof {
            use_type_invariant(self);
        }
        &self.data
    }
}

/// The bearing of `n / d` pixels and the shift that goes with it, the
/// upward one where `upwards` holds.
fn align_bearing(n: i64, d: u64, align: bool, upwards: bool) -> (r: (ImtRatio, ImtRatio))
    requires
        0 < d < 0x8000_0000_0000,
        -0x100_0000_0000_0000 <= n <= 0x100_0000_0000_0000,
    ensures
        r.0 == bearing(n as int, d as int, align),
        r.1 == if upwards {
            align_offset_y(n as int, d as int, align)
        } else {
            align_offset_x(n as int, d as int, align)
        },
        shift_of(r.1, d as int),
{
    if align {
        let c = div_ceil(n, d);
        proof {
            lemma_floor_ceil(n as int, d as int);
            assert((c - 1) * d == c * d - d) by (nonlinear_arith);
        }
        assert(-0x200_0000_0000_0000 <= c * d <= 0x200_0000_0000_0000) by (nonlinear_arith)
            requires
                (c - 1) * d < n <= c * d,
                0 < d < 0x8000_0000_0000,
                -0x100_0000_0000_0000 <= n <= 0x100_0000_0000_0000,
        ;
        let whole: i64 = c * (d as i64);
        let offset = if upwards {
            whole - n - d as i64
        } else {
            n - whole + d as i64
        };
        (ImtRatio { num: c, den: 1 }, ImtRatio { num: offset, den: d })
    } else {
        (ImtRatio { num: n, den: d }, ImtRatio { num: 0, den: 1 })
    }
}

} // verus!
