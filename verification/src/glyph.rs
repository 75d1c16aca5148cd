use crate::bitmap::ImtGlyphBitmap;
use crate::font::ImtWeight;
use crate::scale::ImtRatio;
use crate::shape::ImtShapedGlyph;
use std::sync::Arc;
use vstd::prelude::*;

verus! {

/// A shaped glyph with its bitmap.
#[derive(Debug)]
pub struct ImtRasteredGlyph<I> {
    pub shaped: ImtShapedGlyph,
    pub bitmap: Arc<ImtGlyphBitmap<I>>,
}

/// A length in pixels as the ratio `num / den`, with room for a line of text.
#[derive(Clone, Copy, Debug, PartialEq, Eq, Structural)]
pub struct ImtPixels {
    pub num: i128,
    pub den: u64,
}

/// A glyph to draw: where its bitmap goes, in pixels from the origin of the
/// text, how large it is, and how much of it stands over the body.
#[derive(Debug)]
pub struct ImtGlyph<I> {
    pub x: ImtPixels,
    pub y: ImtPixels,
    pub w: u32,
    pub h: u32,
    pub crop_x: ImtPixels,
    pub crop_y: ImtPixels,
    pub family: String,
    pub weight: ImtWeight,
    pub index: u16,
    pub bitmap: Arc<ImtGlyphBitmap<I>>,
}

/// `v` parts of a design unit in pixels, at `num / den` pixels per design
/// unit: over `den * 1024`.
pub open spec fn scaled_parts(v: int, num: int, den: int) -> ImtPixels {
    ImtPixels { num: (v * num) as i128, den: (den * 1024) as u64 }
}

/// `v` parts of a design unit in pixels, plus the bearing `b`: over
/// `den * 1024`, where `b` is whole or over `den`.
pub open spec fn placed_parts(v: int, num: int, den: int, b: ImtRatio) -> ImtPixels {
    ImtPixels {
        num: (v * num + if b.den == 1 {
            b.num * (den * 1024)
        } else {
            b.num * 1024
        }) as i128,
        den: (den * 1024) as u64,
    }
}

/// What `ImtGlyph::place` makes of a rastered glyph.
pub open spec fn placed_glyph<I>(
    g: ImtRasteredGlyph<I>,
    family: Seq<char>,
    weight: ImtWeight,
    out: ImtGlyph<I>,
) -> bool {
    let s = g.bitmap.spec_scale();
    let m = g.bitmap.spec_metrics();
    &&& out.x == placed_parts(g.shaped.position.x as int, s.num(), s.den(), m.bearing_x)
    &&& out.y == placed_parts(g.shaped.position.y as int, s.num(), s.den(), m.bearing_y)
    &&& out.w == m.width
    &&& out.h == m.height
    &&& out.crop_x == scaled_parts(g.shaped.x_overflow as int, s.num(), s.den())
    &&& out.crop_y == scaled_parts(g.shaped.y_overflow as int, s.num(), s.den())
    &&& out.family@ == family
    &&& out.weight == weight
    &&& out.index == g.shaped.parsed.glyph_index
    &&& out.bitmap == g.bitmap
}

fn scale_parts(v: i64, num: u32, den: u64) -> (r: ImtPixels)
    requires
        0 < num < 0x100_0000,
        0 < den < 0x8000_0000_0000,
    ensures
        r == scaled_parts(v as int, num as int, den as int),
        r.num == v * num,
        -0x80_0000_0000_0000_0000_0000 <= r.num <= 0x80_0000_0000_0000_0000_0000,
{
    assert(-0x80_0000_0000_0000_0000_0000 <= v * num <= 0x80_0000_0000_0000_0000_0000)
        by (nonlinear_arith)
        requires
            -0x8000_0000_0000_0000 <= v <= 0x8000_0000_0000_0000,
            0 < num < 0x100_0000,
    ;
    ImtPixels { num: v as i128 * num as i128, den: den * 1024 }
}

fn place_parts(v: i64, num: u32, den: u64, b: ImtRatio) -> (r: ImtPixels)
    requires
        0 < num < 0x100_0000,
        0 < den < 0x8000_0000_0000,
    ensures
        r == placed_parts(v as int, num as int, den as int, b),
{
    let base = scale_parts(v, num, den);
    let d: i128 = (den * 1024) as i128;
    let factor: i128 = if b.den == 1 {
        d
    } else {
        1024
    };
    assert(-0x1000_0000_0000_0000_0000_0000_0000_0000 <= b.num * factor
        <= 0x1000_0000_0000_0000_0000_0000_0000_0000) by (nonlinear_arith)
        requires
            -0x8000_0000_0000_0000 <= b.num <= 0x8000_0000_0000_0000,
            0 < factor <= 0x200_0000_0000_0000,
    ;
    proof {
        if b.den == 1 {
            assert(b.num * factor == b.num * (den * 1024)) by (nonlinear_arith)
                requires
                    factor == den * 1024,
            ;
        }
    }
    ImtPixels { num: base.num + b.num as i128 * factor, den: base.den }
}

impl<I> ImtGlyph<I> {
    /// The glyph to draw for a rastered glyph: its place on the line in
    /// pixels plus the bearing of its bitmap, the size of the bitmap, and
    /// what stands over the body in pixels.
    pub fn place(g: ImtRasteredGlyph<I>, family: &String, weight: ImtWeight) -> (out: ImtGlyph<I>)
        ensures
            placed_glyph(g, family@, weight, out),
    {
        let scale = g.bitmap.scale();
        let num = scale.numerator();
        let den = scale.denominator();
        let m = g.bitmap.metrics();
        ImtGlyph {
            x: place_parts(g.shaped.position.x, num, den, m.bearing_x),
            y: place_parts(g.shaped.position.y, num, den, m.bearing_y),
            w: m.width,
            h: m.height,
            crop_x: scale_parts(g.shaped.x_overflow, num, den),
            crop_y: scale_parts(g.shaped.y_overflow, num, den),
            family: family.clone(),
            weight,
            index: g.shaped.parsed.glyph_index,
            bitmap: g.bitmap,
        }
    }

    /// The glyphs to draw for the rastered glyphs, in their order.
    pub fn place_all(glyphs: Vec<ImtRasteredGlyph<I>>, family: &String, weight: ImtWeight) -> (out:
        Vec<ImtGlyph<I>>)
        ensures
            out@.len() == glyphs@.len(),
            forall|i: int|
                0 <= i < glyphs@.len() ==> placed_glyph(
                    glyphs@[i],
                    family@,
                    weight,
                    #[trigger] out@[i],
                ),
    {
        let mut out: Vec<ImtGlyph<I>> = Vec::new();
        for g in it: glyphs
            invariant
                out@.len() == it.index(),
                it.seq() == glyphs@,
                forall|i: int|
                    0 <= i < out@.len() ==> placed_glyph(
                        glyphs@[i],
                        family@,
                        weight,
                        #[trigger] out@[i],
                    ),
        {
            out.push(Self::place(g, family, weight));
        }
        out
    }
}

} // verus!
