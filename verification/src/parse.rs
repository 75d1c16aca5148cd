use crate::error::{ImtError, ImtErrorSrc, ImtErrorTy, ImtParseFailure};
use crate::outline::{contour_geometry, draw_contour, offset_ok, ImtContourPoint};
use crate::primative::ImtGeometry;
use crate::scale::{ImtScale, ImtTextHeight};
use allsorts::tables::glyf::{
    BoundingBox, CompositeGlyph, CompositeGlyphArgument, CompositeGlyphFlag, CompositeGlyphScale,
    Glyph, GlyphData, Point, SimpleGlyph, SimpleGlyphFlag,
};
use allsorts::tables::{Fixed, HeadTable, HheaTable, IndexToLocFormat};
use std::collections::BTreeMap;
use std::sync::Arc;
use vstd::prelude::*;

verus! {

/// The measures of a font, in design units.
#[derive(Clone, Copy, Debug)]
pub struct ImtFontProps {
    units_per_em: u16,
    ascender: i32,
    descender: i32,
    line_gap: i32,
}

impl ImtFontProps {
    #[verifier::type_invariant]
    spec fn has_em(self) -> bool {
        self.units_per_em > 0
    }

    /// Design units per em: the scaler of the font is its reciprocal.
    pub closed spec fn spec_units_per_em(self) -> u16 {
        self.units_per_em
    }

    /// From the baseline up to the top of a line.
    pub closed spec fn spec_ascender(self) -> i32 {
        self.ascender
    }

    /// From the baseline down to the bottom of a line.
    pub closed spec fn spec_descender(self) -> i32 {
        self.descender
    }

    /// Between the bottom of a line and the top of the next.
    pub closed spec fn spec_line_gap(self) -> i32 {
        self.line_gap
    }

    /// The measures of a font from the fields of its `head` and `hhea`
    /// tables. The ascender is the table's, moved by the lowest y of the font
    /// and by a twenty-second of the em, rounded down; the line gap is the
    /// table's less the lowest y. A font without units per em is refused.
    pub fn new(units_per_em: u16, ascender: i16, descender: i16, line_gap: i16, y_min: i16) -> (r:
        Result<Self, ImtError>)
        ensures
            r is Ok <==> units_per_em > 0,
            r matches Ok(p) ==> {
                &&& p.spec_units_per_em() == units_per_em
                &&& p.spec_ascender() == ascender + y_min + units_per_em as int / 22
                &&& p.spec_descender() == descender
                &&& p.spec_line_gap() == line_gap - y_min
            },
            r matches Err(e) ==> e.src == ImtErrorSrc::Head && e.ty == ImtErrorTy::FileBadValue,
    {
        if units_per_em == 0 {
            return Err(ImtError::src_and_ty(ImtErrorSrc::Head, ImtErrorTy::FileBadValue));
        }
        Ok(
            ImtFontProps {
                units_per_em,
                ascender: ascender as i32 + y_min as i32 + (units_per_em / 22) as i32,
                descender: descender as i32,
                line_gap: line_gap as i32 - y_min as i32,
            },
        )
    }

    /// `new` on the fields of the `head` and `hhea` tables that the font
    /// reader gave.
    pub fn from_tables(head: &HeadTable, hhea: &HheaTable) -> (r: Result<Self, ImtError>)
        ensures
            r is Ok <==> head.units_per_em > 0,
            r matches Ok(p) ==> {
                &&& p.spec_units_per_em() == head.units_per_em
                &&& p.spec_ascender() == hhea.ascender + head.y_min + head.units_per_em as int / 22
                &&& p.spec_descender() == hhea.descender
                &&& p.spec_line_gap() == hhea.line_gap - head.y_min
            },
            r matches Err(e) ==> e.src == ImtErrorSrc::Head && e.ty == ImtErrorTy::FileBadValue,
    {
        Self::new(head.units_per_em, hhea.ascender, hhea.descender, hhea.line_gap, head.y_min)
    }

    /// Design units per em, not zero.
    pub fn units_per_em(&self) -> (u: u16)
        ensures
            u == self.spec_units_per_em(),
            u > 0,
    {
        proof {
            use_type_invariant(self);
        }
        self.units_per_em
    }

    /// From the baseline up to the top of a line.
    pub fn ascender(&self) -> (a: i32)
        ensures
            a == self.spec_ascender(),
    {
        self.ascender
    }

    /// From the baseline down to the bottom of a line.
    pub fn descender(&self) -> (d: i32)
        ensures
            d == self.spec_descender(),
    {
        self.descender
    }

    /// Between the bottom of a line and the top of the next.
    pub fn line_gap(&self) -> (g: i32)
        ensures
            g == self.spec_line_gap(),
    {
        self.line_gap
    }

    /// Pixels per design unit at the text height `height`.
    pub fn scale(&self, height: ImtTextHeight) -> (s: ImtScale)
        ensures
            s == ImtScale::of(height, self.spec_units_per_em()),
            s.wf(),
            s.num() == height.num(),
            s.den() == height.den() * self.spec_units_per_em(),
    {
        proof {
            use_type_invariant(self);
        }
        ImtScale::new(height, self.units_per_em)
    }
}

/// `allsorts::tables::Fixed`, carried through unread.
#[verifier::external_type_specification]
#[verifier::external_body]
pub struct ExFixed(Fixed);

/// `allsorts::tables::IndexToLocFormat`, read as declared.
#[verifier::external_type_specification]
pub struct ExIndexToLocFormat(IndexToLocFormat);

/// `allsorts::tables::HeadTable`, read as declared: the fields of the `head`
/// table.
#[verifier::external_type_specification]
pub struct ExHeadTable(HeadTable);

/// `allsorts::tables::HheaTable`, read as declared: the fields of the `hhea`
/// table.
#[verifier::external_type_specification]
pub struct ExHheaTable(HheaTable);

/// `allsorts::tables::glyf::BoundingBox`, read as declared.
#[verifier::external_type_specification]
pub struct ExBoundingBox(BoundingBox);

/// `allsorts::tables::glyf::Point`, read as declared: x, then y.
#[verifier::external_type_specification]
pub struct ExPoint(Point);

/// `allsorts::tables::glyf::CompositeGlyphArgument`, read as declared: a byte
/// or a word, signed or not.
#[verifier::external_type_specification]
pub struct ExCompositeGlyphArgument(CompositeGlyphArgument);

/// `allsorts::tables::glyf::SimpleGlyphFlag`, carried through unread.
#[verifier::external_type_specification]
#[verifier::external_body]
pub struct ExSimpleGlyphFlag(SimpleGlyphFlag);

/// `allsorts::tables::glyf::CompositeGlyphFlag`, carried through unread.
#[verifier::external_type_specification]
#[verifier::external_body]
pub struct ExCompositeGlyphFlag(CompositeGlyphFlag);

/// `allsorts::tables::glyf::CompositeGlyphScale`, carried through unread.
#[verifier::external_type_specification]
#[verifier::external_body]
pub struct ExCompositeGlyphScale(CompositeGlyphScale);

/// `allsorts::tables::glyf::CompositeGlyph`, read as declared.
#[verifier::external_type_specification]
pub struct ExCompositeGlyph(CompositeGlyph);

/// `allsorts::tables::glyf::SimpleGlyph`, read as declared.
#[verifier::external_type_specification]
pub struct ExSimpleGlyph<'a>(SimpleGlyph<'a>);

/// `allsorts::tables::glyf::GlyphData`, read as declared.
#[verifier::external_type_specification]
pub struct ExGlyphData<'a>(GlyphData<'a>);

/// `allsorts::tables::glyf::Glyph`, read as declared.
#[verifier::external_type_specification]
pub struct ExGlyph<'a>(Glyph<'a>);

/// The box of a glyph as its table gives it, in design units.
#[derive(Clone, Copy, Debug, PartialEq, Eq, Structural)]
pub struct ImtBoundingBox {
    pub x_min: i16,
    pub y_min: i16,
    pub x_max: i16,
    pub y_max: i16,
}

/// The box of an outline, in design units.
#[derive(Clone, Copy, Debug, PartialEq, Eq, Structural)]
pub struct ImtBounds {
    pub min_x: i32,
    pub min_y: i32,
    pub max_x: i32,
    pub max_y: i32,
}

/// A glyph that another glyph is made of, and where it is placed.
#[derive(Clone, Copy, Debug, PartialEq, Eq, Structural)]
pub struct ImtComponent {
    pub glyph_index: u16,
    pub x: i32,
    pub y: i32,
}

/// One record of a font's glyph table.
#[derive(Clone, Debug)]
pub enum ImtGlyfRecord {
    /// A glyph without an outline.
    Empty,
    /// A record that could not be read.
    Unreadable(ImtParseFailure),
    /// Contours: the points of all of them in order, and the index of the
    /// last point of each.
    Simple { bounding_box: ImtBoundingBox, points: Vec<ImtContourPoint>, end_pts: Vec<u16> },
    /// Other glyphs, each placed by an offset.
    Composite { bounding_box: ImtBoundingBox, components: Vec<ImtComponent> },
}

/// Whether a flag of the font reader marks a point on the curve.
pub uninterp spec fn on_curve_flag(flag: SimpleGlyphFlag) -> bool;

/// `SimpleGlyphFlag::is_on_curve` of the font reader. The contract claims
/// only that the answer is a function of the flag.
#[verifier::external_body]
fn is_on_curve(flag: &SimpleGlyphFlag) -> (on: bool)
    ensures
        on == on_curve_flag(*flag),
{
    flag.is_on_curve()
}

/// The offset that an argument of a component holds.
pub open spec fn argument_value(arg: CompositeGlyphArgument) -> int {
    match arg {
        CompositeGlyphArgument::U8(v) => v as int,
        CompositeGlyphArgument::I8(v) => v as int,
        CompositeGlyphArgument::U16(v) => v as int,
        CompositeGlyphArgument::I16(v) => v as int,
    }
}

fn argument(arg: &CompositeGlyphArgument) -> (v: i32)
    ensures
        v == argument_value(*arg),
        offset_ok(v as int),
{
    match arg {
        CompositeGlyphArgument::U8(v) => *v as i32,
        CompositeGlyphArgument::I8(v) => *v as i32,
        CompositeGlyphArgument::U16(v) => *v as i32,
        CompositeGlyphArgument::I16(v) => *v as i32,
    }
}

/// A control point of the font reader with its flag.
pub open spec fn contour_point(p: Point, flag: SimpleGlyphFlag) -> ImtContourPoint {
    ImtContourPoint { x: p.0, y: p.1, on_curve: on_curve_flag(flag) }
}

/// A component of the font reader: its scale is not read.
pub open spec fn component(c: CompositeGlyph) -> ImtComponent {
    ImtComponent {
        glyph_index: c.glyph_index,
        x: argument_value(c.argument1) as i32,
        y: argument_value(c.argument2) as i32,
    }
}

/// Whether `record` holds what the glyph of the font reader holds: its box,
/// and either its control points, as many as have a flag, with the ends of
/// its contours, or its components.
pub open spec fn records(glyph: Glyph, record: ImtGlyfRecord) -> bool {
    let bb = ImtBoundingBox {
        x_min: glyph.bounding_box.x_min,
        y_min: glyph.bounding_box.y_min,
        x_max: glyph.bounding_box.x_max,
        y_max: glyph.bounding_box.y_max,
    };
    match glyph.data {
        GlyphData::Simple(simple) => {
            &&& record matches ImtGlyfRecord::Simple { bounding_box, points, end_pts }
            &&& bounding_box == bb
            &&& end_pts@ == simple.end_pts_of_contours@
            &&& points@.len() == if simple.coordinates@.len() <= simple.flags@.len() {
                simple.coordinates@.len()
            } else {
                simple.flags@.len()
            }
            &&& forall|i: int|
                0 <= i < points@.len() ==> #[trigger] points@[i] == contour_point(
                    simple.coordinates@[i],
                    simple.flags@[i],
                )
        },
        GlyphData::Composite { glyphs, instructions } => {
            &&& record matches ImtGlyfRecord::Composite { bounding_box, components }
            &&& bounding_box == bb
            &&& components@.len() == glyphs@.len()
            &&& forall|i: int|
                0 <= i < components@.len() ==> #[trigger] components@[i] == component(glyphs@[i])
        },
    }
}

impl ImtGlyfRecord {
    /// The record for a glyph that the font reader read.
    pub fn from_glyph(glyph: &Glyph<'_>) -> (record: Self)
        ensures
            records(*glyph, record),
    {
        let bounding_box = ImtBoundingBox {
            x_min: glyph.bounding_box.x_min,
            y_min: glyph.bounding_box.y_min,
            x_max: glyph.bounding_box.x_max,
            y_max: glyph.bounding_box.y_max,
        };
        match &glyph.data {
            GlyphData::Simple(simple) => {
                let mut points: Vec<ImtContourPoint> = Vec::new();
                let mut i: usize = 0;
                while i < simple.coordinates.len() && i < simple.flags.len()
                    invariant
                        i <= simple.coordinates@.len(),
                        i <= simple.flags@.len(),
                        points@.len() == i,
                        forall|k: int|
                            0 <= k < i ==> #[trigger] points@[k] == contour_point(
                                simple.coordinates@[k],
                                simple.flags@[k],
                            ),
                    decreases simple.coordinates@.len() - i,
                {
                    let p = &simple.coordinates[i];
                    points.push(
                        ImtContourPoint { x: p.0, y: p.1, on_curve: is_on_curve(&simple.flags[i]) },
                    );
                    i += 1;
                }
                let mut end_pts: Vec<u16> = Vec::new();
                let mut k: usize = 0;
                while k < simple.end_pts_of_contours.len()
                    invariant
                        k <= simple.end_pts_of_contours@.len(),
                        end_pts@ == simple.end_pts_of_contours@.take(k as int),
                    decreases simple.end_pts_of_contours@.len() - k,
                {
                    end_pts.push(simple.end_pts_of_contours[k]);
                    proof {
                        assert(simple.end_pts_of_contours@.take(k + 1)
                            =~= simple.end_pts_of_contours@.take(k as int).push(
                            simple.end_pts_of_contours@[k as int],
                        ));
                    }
                    k += 1;
                }
                proof {
                    assert(simple.end_pts_of_contours@.take(k as int)
                        =~= simple.end_pts_of_contours@);
                }
                ImtGlyfRecord::Simple { bounding_box, points, end_pts }
            },
            GlyphData::Composite { glyphs, instructions } => {
                let mut components: Vec<ImtComponent> = Vec::new();
                let mut i: usize = 0;
                while i < glyphs.len()
                    invariant
                        i <= glyphs@.len(),
                        components@.len() == i,
                        forall|k: int|
                            0 <= k < i ==> #[trigger] components@[k] == component(glyphs@[k]),
                    decreases glyphs@.len() - i,
                {
                    let c = &glyphs[i];
                    components.push(
                        ImtComponent {
                            glyph_index: c.glyph_index,
                            x: argument(&c.argument1),
                            y: argument(&c.argument2),
                        },
                    );
                    i += 1;
                }
                ImtGlyfRecord::Composite { bounding_box, components }
            },
        }
    }
}

/// Whether the point `i` is the last of a contour.
pub open spec fn is_contour_end(end_pts: Seq<u16>, i: int) -> bool {
    end_pts.contains((i % 0x1_0000) as u16)
}

/// The points, before the point `i`, of the contour that `i` belongs to.
pub open spec fn pending_contour(points: Seq<ImtContourPoint>, end_pts: Seq<u16>, i: int) -> Seq<
    ImtContourPoint,
>
    decreases i,
{
    if i <= 0 || is_contour_end(end_pts, i - 1) {
        seq![]
    } else {
        pending_contour(points, end_pts, i - 1).push(points[i - 1])
    }
}

/// The outline of the contours that end before the point `i`. Points after
/// the last end belong to no contour.
pub open spec fn simple_pieces(
    points: Seq<ImtContourPoint>,
    end_pts: Seq<u16>,
    i: int,
    gox: int,
    goy: int,
) -> Seq<ImtGeometry>
    decreases i,
{
    if i <= 0 {
        seq![]
    } else if is_contour_end(end_pts, i - 1) {
        simple_pieces(points, end_pts, i - 1, gox, goy) + contour_geometry(
            pending_contour(points, end_pts, i - 1).push(points[i - 1]),
            gox,
            goy,
        )
    } else {
        simple_pieces(points, end_pts, i - 1, gox, goy)
    }
}

/// The outline of a glyph of contours.
pub open spec fn simple_geometry(
    points: Seq<ImtContourPoint>,
    end_pts: Seq<u16>,
    gox: int,
    goy: int,
) -> Seq<ImtGeometry> {
    simple_pieces(points, end_pts, points.len() as int, gox, goy)
}

fn ends_contour(end_pts: &Vec<u16>, i: usize) -> (b: bool)
    ensures
        b == is_contour_end(end_pts@, i as int),
{
    let wanted: u16 = (i % 0x1_0000) as u16;
    let mut k: usize = 0;
    while k < end_pts.len()
        invariant
            k <= end_pts.len(),
            wanted == (i as int % 0x1_0000) as u16,
            forall|m: int| 0 <= m < k ==> end_pts@[m] != wanted,
        decreases end_pts.len() - k,
    {
        if end_pts[k] == wanted {
            return true;
        }
        k += 1;
    }
    false
}

/// Appends the outline of a glyph of contours to `out`.
pub fn draw_simple(
    points: &Vec<ImtContourPoint>,
    end_pts: &Vec<u16>,
    gox: i32,
    goy: i32,
    out: &mut Vec<ImtGeometry>,
)
    requires
        offset_ok(gox as int),
        offset_ok(goy as int),
    ensures
        final(out)@ == old(out)@ + simple_geometry(points@, end_pts@, gox as int, goy as int),
{
    let mut contour: Vec<ImtContourPoint> = Vec::new();
    let mut i: usize = 0;
    while i < points.len()
        invariant
            i <= points.len(),
            offset_ok(gox as int),
            offset_ok(goy as int),
            contour@ == pending_contour(points@, end_pts@, i as int),
            out@ == old(out)@ + simple_pieces(points@, end_pts@, i as int, gox as int, goy as int),
        decreases points.len() - i,
    {
        contour.push(points[i]);
        if ends_contour(end_pts, i) {
            let ghost before = out@;
            draw_contour(&contour, gox, goy, out);
            contour.clear();
            proof {
                assert(out@ =~= old(out)@ + (simple_pieces(
                    points@,
                    end_pts@,
                    i as int,
                    gox as int,
                    goy as int,
                ) + contour_geometry(
                    pending_contour(points@, end_pts@, i as int).push(points@[i as int]),
                    gox as int,
                    goy as int,
                )));
            }
        }
        i += 1;
    }
}

/// What the records visited so far have given: the outline, and its box
/// once a record with a box was met.
pub struct ImtOutline {
    pub geometry: Vec<ImtGeometry>,
    pub bounds: Option<ImtBounds>,
}

/// An outline in contracts.
pub struct ImtOutlineView {
    pub geometry: Seq<ImtGeometry>,
    pub bounds: Option<ImtBounds>,
}

impl View for ImtOutline {
    type V = ImtOutlineView;

    open spec fn view(&self) -> ImtOutlineView {
        ImtOutlineView { geometry: self.geometry@, bounds: self.bounds }
    }
}

/// The box `bounds` widened by the record's box, which is moved by the
/// offset of the record as its outline is.
pub open spec fn widened(bounds: Option<ImtBounds>, bb: ImtBoundingBox, gox: int, goy: int) -> Option<
    ImtBounds,
> {
    let g = ImtBounds {
        min_x: (bb.x_min + gox) as i32,
        min_y: (bb.y_min + goy) as i32,
        max_x: (bb.x_max + gox) as i32,
        max_y: (bb.y_max + goy) as i32,
    };
    match bounds {
        None => Some(g),
        Some(b) => Some(
            ImtBounds {
                min_x: if g.min_x < b.min_x {
                    g.min_x
                } else {
                    b.min_x
                },
                min_y: if g.min_y < b.min_y {
                    g.min_y
                } else {
                    b.min_y
                },
                max_x: if g.max_x > b.max_x {
                    g.max_x
                } else {
                    b.max_x
                },
                max_y: if g.max_y > b.max_y {
                    g.max_y
                } else {
                    b.max_y
                },
            },
        ),
    }
}

/// The error `ty` of the glyph table.
pub open spec fn glyf_error(ty: ImtErrorTy) -> ImtError {
    ImtError { src: ImtErrorSrc::Glyf, ty }
}

/// Whether the glyph `index` may not be entered from the way `way`, the
/// glyphs of components from the first down to the one that holds it: it
/// stands on the way already, so that it would hold itself. A way as long as
/// the table has no room for another glyph; on a way of glyphs of the table,
/// each once, that is a repeat too (`lemma_full_way_repeats`).
pub open spec fn closes_circle(records: Seq<ImtGlyfRecord>, way: Seq<u16>, index: u16) -> bool {
    way.contains(index) || way.len() >= records.len()
}

/// The outline `acc` after the record `index`, placed at the offset, was
/// visited on the way `way`. A missing record is `MissingGlyph`, a glyph of
/// components that stands on its own way `UnimplementedDataTy`.
pub open spec fn visit_record(
    records: Seq<ImtGlyfRecord>,
    index: u16,
    gox: int,
    goy: int,
    way: Seq<u16>,
    acc: ImtOutlineView,
) -> Result<ImtOutlineView, ImtError>
    decreases records.len() - way.len(), 0nat,
{
    if index >= records.len() {
        Err(glyf_error(ImtErrorTy::MissingGlyph))
    } else {
        match records[index as int] {
            ImtGlyfRecord::Empty => Ok(acc),
            ImtGlyfRecord::Unreadable(kind) => Err(glyf_error(kind.error_ty())),
            ImtGlyfRecord::Simple { bounding_box, points, end_pts } => Ok(
                ImtOutlineView {
                    geometry: acc.geometry + simple_geometry(points@, end_pts@, gox, goy),
                    bounds: widened(acc.bounds, bounding_box, gox, goy),
                },
            ),
            ImtGlyfRecord::Composite { bounding_box, components } => if closes_circle(
                records,
                way,
                index,
            ) {
                Err(glyf_error(ImtErrorTy::UnimplementedDataTy))
            } else {
                visit_components(
                    records,
                    components@,
                    components@.len() as int,
                    way.push(index),
                    ImtOutlineView {
                        geometry: acc.geometry,
                        bounds: widened(acc.bounds, bounding_box, gox, goy),
                    },
                )
            },
        }
    }
}

/// The outline `acc` after the first `k` components of the last glyph on
/// the way were visited, the last of them first. A component placed out of
/// range is `FileBadValue`.
pub open spec fn visit_components(
    records: Seq<ImtGlyfRecord>,
    components: Seq<ImtComponent>,
    k: int,
    way: Seq<u16>,
    acc: ImtOutlineView,
) -> Result<ImtOutlineView, ImtError>
    decreases records.len() - way.len(), 1 + (if k > 0 { k } else { 0 }),
{
    if k <= 0 {
        Ok(acc)
    } else {
        let c = components[k - 1];
        if !offset_ok(c.x as int) || !offset_ok(c.y as int) {
            Err(glyf_error(ImtErrorTy::FileBadValue))
        } else {
            match visit_record(records, c.glyph_index, c.x as int, c.y as int, way, acc) {
                Err(e) => Err(e),
                Ok(next) => visit_components(records, components, k - 1, way, next),
            }
        }
    }
}

/// Whether the way holds glyphs of a table of `len` records, each once.
pub open spec fn way_in_table(way: Seq<u16>, len: int) -> bool {
    way.no_duplicates() && forall|i: int| 0 <= i < way.len() ==> (#[trigger] way[i]) < len
}

/// A way of glyphs of the table, each once, that is as long as the table
/// holds every glyph of the table: a glyph is refused on it only as a repeat.
/// The way that a glyph is entered from stays such a way with that glyph, as
/// every way from the empty one down is.
pub proof fn lemma_full_way_repeats(records: Seq<ImtGlyfRecord>, way: Seq<u16>, index: u16)
    requires
        way_in_table(way, records.len() as int),
        index < records.len(),
    ensures
        closes_circle(records, way, index) <==> way.contains(index),
        !way.contains(index) ==> way_in_table(way.push(index), records.len() as int),
{
    if !way.contains(index) {
        let more = way.push(index);
        assert(more.no_duplicates()) by {
            assert forall|i: int, j: int| 0 <= i < more.len() && 0 <= j < more.len() && i != j
                implies more[i] != more[j] by {
                if i == way.len() {
                    assert(way[j] == more[j]);
                } else if j == way.len() {
                    assert(way[i] == more[i]);
                } else {
                    assert(way[i] == more[i] && way[j] == more[j]);
                }
            }
        }
        assert forall|i: int| 0 <= i < more.len() implies (#[trigger] more[i]) < records.len() by {
            if i < way.len() {
                assert(more[i] == way[i]);
            }
        }
    }
    if way.len() >= records.len() && !way.contains(index) {
        let more = way.push(index);
        let ints = more.map_values(|g: u16| g as int);
        assert(ints.no_duplicates()) by {
            assert forall|i: int, j: int| 0 <= i < ints.len() && 0 <= j < ints.len() && i != j
                implies ints[i] != ints[j] by {
                assert(more[i] != more[j]);
            }
        }
        ints.unique_seq_to_set();
        let all = vstd::set_lib::set_int_range(0, records.len() as int);
        vstd::set_lib::lemma_int_range(0, records.len() as int);
        assert(ints.to_set().subset_of(all)) by {
            assert forall|x: int| ints.to_set().contains(x) implies all.contains(x) by {
                let i = choose|i: int| 0 <= i < ints.len() && ints[i] == x;
                if i < way.len() {
                    assert(more[i] == way[i]);
                }
            }
        }
        vstd::set_lib::lemma_len_subset(ints.to_set(), all);
    }
}

fn on_way(way: &Vec<u16>, index: u16) -> (on: bool)
    ensures
        on == way@.contains(index),
{
    let mut i: usize = 0;
    while i < way.len()
        invariant
            i <= way@.len(),
            forall|k: int| 0 <= k < i ==> way@[k] != index,
        decreases way@.len() - i,
    {
        if way[i] == index {
            return true;
        }
        i += 1;
    }
    false
}

fn widen(bounds: Option<ImtBounds>, bb: &ImtBoundingBox, gox: i32, goy: i32) -> (r: Option<ImtBounds>)
    requires
        offset_ok(gox as int),
        offset_ok(goy as int),
    ensures
        r == widened(bounds, *bb, gox as int, goy as int),
{
    let g = ImtBounds {
        min_x: bb.x_min as i32 + gox,
        min_y: bb.y_min as i32 + goy,
        max_x: bb.x_max as i32 + gox,
        max_y: bb.y_max as i32 + goy,
    };
    match bounds {
        None => Some(g),
        Some(b) => Some(
            ImtBounds {
                min_x: if g.min_x < b.min_x {
                    g.min_x
                } else {
                    b.min_x
                },
                min_y: if g.min_y < b.min_y {
                    g.min_y
                } else {
                    b.min_y
                },
                max_x: if g.max_x > b.max_x {
                    g.max_x
                } else {
                    b.max_x
                },
                max_y: if g.max_y > b.max_y {
                    g.max_y
                } else {
                    b.max_y
                },
            },
        ),
    }
}

/// Visits the record `index` and, through it, its components. `way` holds
/// the glyphs of components from the first down to the one that holds this
/// record, and holds them again afterwards.
pub fn draw_record(
    records: &Vec<ImtGlyfRecord>,
    index: u16,
    gox: i32,
    goy: i32,
    way: &mut Vec<u16>,
    out: &mut ImtOutline,
) -> (r: Result<(), ImtError>)
    requires
        offset_ok(gox as int),
        offset_ok(goy as int),
    ensures
        final(way)@ == old(way)@,
        r matches Ok(_) ==> visit_record(
            records@,
            index,
            gox as int,
            goy as int,
            old(way)@,
            old(out)@,
        ) == Ok::<ImtOutlineView, ImtError>(final(out)@),
        r matches Err(e) ==> visit_record(
            records@,
            index,
            gox as int,
            goy as int,
            old(way)@,
            old(out)@,
        ) == Err::<ImtOutlineView, ImtError>(e),
    decreases records@.len() - old(way)@.len(), 0nat,
{
    if index as usize >= records.len() {
        return Err(ImtError::src_and_ty(ImtErrorSrc::Glyf, ImtErrorTy::MissingGlyph));
    }
    match &records[index as usize] {
        ImtGlyfRecord::Empty => Ok(()),
        ImtGlyfRecord::Unreadable(kind) => Err(ImtError::parse_failure(ImtErrorSrc::Glyf, *kind)),
        ImtGlyfRecord::Simple { bounding_box, points, end_pts } => {
            out.bounds = widen(out.bounds, bounding_box, gox, goy);
            draw_simple(points, end_pts, gox, goy, &mut out.geometry);
            Ok(())
        },
        ImtGlyfRecord::Composite { bounding_box, components } => {
            if on_way(way, index) || way.len() >= records.len() {
                return Err(
                    ImtError::src_and_ty(ImtErrorSrc::Glyf, ImtErrorTy::UnimplementedDataTy),
                );
            }
            out.bounds = widen(out.bounds, bounding_box, gox, goy);
            way.push(index);
            let r = draw_components(records, components, components.len(), way, out);
            way.pop();
            proof {
                assert(way@ =~= old(way)@);
            }
            r
        },
    }
}

/// Visits the first `k` components of the last glyph on the way, the last
/// of them first.
pub fn draw_components(
    records: &Vec<ImtGlyfRecord>,
    components: &Vec<ImtComponent>,
    k: usize,
    way: &mut Vec<u16>,
    out: &mut ImtOutline,
) -> (r: Result<(), ImtError>)
    requires
        k <= components.len(),
    ensures
        final(way)@ == old(way)@,
        r matches Ok(_) ==> visit_components(
            records@,
            components@,
            k as int,
            old(way)@,
            old(out)@,
        ) == Ok::<ImtOutlineView, ImtError>(final(out)@),
        r matches Err(e) ==> visit_components(
            records@,
            components@,
            k as int,
            old(way)@,
            old(out)@,
        ) == Err::<ImtOutlineView, ImtError>(e),
    decreases records@.len() - old(way)@.len(), 1 + k,
{
    if k == 0 {
        return Ok(());
    }
    let c = components[k - 1];
    if c.x < -0x1_0000 || c.x > 0x1_0000 || c.y < -0x1_0000 || c.y > 0x1_0000 {
        return Err(ImtError::src_and_ty(ImtErrorSrc::Glyf, ImtErrorTy::FileBadValue));
    }
    match draw_record(records, c.glyph_index, c.x, c.y, way, out) {
        Err(e) => Err(e),
        Ok(_) => draw_components(records, components, k - 1, way, out),
    }
}

/// A glyph ready for rasterizing: its outline, its box and its advance.
#[derive(Clone, Debug)]
pub struct ImtParsedGlyph {
    pub glyph_index: u16,
    pub min_x: i32,
    pub min_y: i32,
    pub max_x: i32,
    pub max_y: i32,
    pub hori_adv: u16,
    pub geometry: Vec<ImtGeometry>,
}

/// What `ImtParsedGlyph::build` returns: the outline of the record `index`
/// with all its components, the box of the records met (all zero where none
/// had one), and the advance. A failure in the outline comes before one in
/// the advance, which is reported for the glyph.
pub open spec fn parsed_glyph(
    records: Seq<ImtGlyfRecord>,
    index: u16,
    hori_adv: Result<u16, ImtParseFailure>,
    glyph: ImtParsedGlyph,
) -> bool {
    let start = ImtOutlineView { geometry: seq![], bounds: None };
    &&& visit_record(records, index, 0, 0, Seq::empty(), start) matches Ok(outline)
    &&& hori_adv matches Ok(adv)
    &&& glyph.glyph_index == index
    &&& glyph.hori_adv == adv
    &&& glyph.geometry@ == outline.geometry
    &&& match outline.bounds {
        Some(b) => glyph.min_x == b.min_x && glyph.min_y == b.min_y && glyph.max_x == b.max_x
            && glyph.max_y == b.max_y,
        None => glyph.min_x == 0 && glyph.min_y == 0 && glyph.max_x == 0 && glyph.max_y == 0,
    }
}

/// When `ImtParsedGlyph::build` fails, and with what: with the failure of
/// the outline, else with that of the advance.
pub open spec fn parsed_glyph_error(
    records: Seq<ImtGlyfRecord>,
    index: u16,
    hori_adv: Result<u16, ImtParseFailure>,
    e: ImtError,
) -> bool {
    let start = ImtOutlineView { geometry: seq![], bounds: None };
    match visit_record(records, index, 0, 0, Seq::empty(), start) {
        Err(first) => e == first,
        Ok(_) => hori_adv matches Err(kind) && e.src == ImtErrorSrc::Glyph && e.ty
            == kind.error_ty(),
    }
}

impl ImtParsedGlyph {
    /// Builds the glyph `index` from the records of the glyph table and from
    /// what the metrics table gave as its advance.
    pub fn build(
        records: &Vec<ImtGlyfRecord>,
        index: u16,
        hori_adv: Result<u16, ImtParseFailure>,
    ) -> (r: Result<ImtParsedGlyph, ImtError>)
        ensures
            r matches Ok(g) ==> parsed_glyph(records@, index, hori_adv, g),
            r matches Err(e) ==> parsed_glyph_error(records@, index, hori_adv, e),
    {
        let mut outline = ImtOutline { geometry: Vec::new(), bounds: None };
        let mut way: Vec<u16> = Vec::new();
        match draw_record(records, index, 0, 0, &mut way, &mut outline) {
            Err(e) => {
                return Err(e);
            },
            Ok(_) => {},
        }
        let adv = match hori_adv {
            Err(kind) => {
                return Err(ImtError::parse_failure(ImtErrorSrc::Glyph, kind));
            },
            Ok(adv) => adv,
        };
        let (min_x, min_y, max_x, max_y) = match outline.bounds {
            Some(b) => (b.min_x, b.min_y, b.max_x, b.max_y),
            None => (0, 0, 0, 0),
        };
        Ok(
            ImtParsedGlyph {
                glyph_index: index,
                min_x,
                min_y,
                max_x,
                max_y,
                hori_adv: adv,
                geometry: outline.geometry,
            },
        )
    }
}

/// `Arc::clone`: one more handle on the same value.
#[verifier::external_body]
pub(crate) fn share<T>(handle: &Arc<T>) -> (other: Arc<T>)
    ensures
        other == *handle,
{
    Arc::clone(handle)
}

/// The characters that stand for glyphs: all but carriage returns.
pub open spec fn shown(text: Seq<char>) -> Seq<char> {
    text.filter(|c: char| c != '\r')
}

/// The characters of a text in order, carriage returns left out.
pub fn text_chars(text: &str) -> (out: Vec<char>)
    ensures
        out@ == shown(text@),
{
    let mut out: Vec<char> = Vec::new();
    for c in it: text.chars()
        invariant
            it.seq() == text@,
            out@ == shown(it.seq().take(it.index() as int)),
    {
        proof {
            let seen = it.seq().take(it.index() as int);
            let more = it.seq().take(it.index() + 1);
            assert(more.drop_last() =~= seen);
            assert(more.last() == c);
            reveal_with_fuel(Seq::filter, 2);
            assert(shown(more) == if c != '\r' {
                shown(seen).push(c)
            } else {
                shown(seen)
            });
        }
        if c != '\r' {
            out.push(c);
        }
    }
    proof {
        assert(text@.take(text@.len() as int) =~= text@);
    }
    out
}

/// The glyph index for a character. `found` is what the character map gave
/// for the character, `fallback` what it gave for the question mark, which
/// stands for characters that the font lacks. A failure of the first lookup
/// comes before one of the second; a font without a question mark has no
/// glyph for any character.
pub fn glyph_for_char(
    found: Result<Option<u16>, ImtParseFailure>,
    fallback: Result<Option<u16>, ImtParseFailure>,
) -> (r: Result<u16, ImtError>)
    ensures
        r == match found {
            Err(kind) => Err::<u16, ImtError>(
                ImtError { src: ImtErrorSrc::Cmap, ty: kind.error_ty() },
            ),
            Ok(own) => match fallback {
                Err(kind) => Err(ImtError { src: ImtErrorSrc::Cmap, ty: kind.error_ty() }),
                Ok(None) => Err(ImtError { src: ImtErrorSrc::Cmap, ty: ImtErrorTy::MissingGlyph }),
                Ok(Some(other)) => Ok(
                    match own {
                        Some(index) => index,
                        None => other,
                    },
                ),
            },
        },
{
    let own = match found {
        Err(kind) => {
            return Err(ImtError::parse_failure(ImtErrorSrc::Cmap, kind));
        },
        Ok(own) => own,
    };
    let other = match fallback {
        Err(kind) => {
            return Err(ImtError::parse_failure(ImtErrorSrc::Cmap, kind));
        },
        Ok(None) => {
            return Err(ImtError::src_and_ty(ImtErrorSrc::Cmap, ImtErrorTy::MissingGlyph));
        },
        Ok(Some(other)) => other,
    };
    match own {
        Some(index) => Ok(index),
        None => Ok(other),
    }
}

/// The records of a font's glyph table and the glyphs built from them so
/// far, each built once.
pub struct ImtGlyphStore {
    records: Vec<ImtGlyfRecord>,
    parsed_glyphs: BTreeMap<u16, Arc<ImtParsedGlyph>>,
}

impl ImtGlyphStore {
    #[verifier::type_invariant]
    spec fn built_from_records(self) -> bool {
        forall|i: u16| #[trigger]
            self.parsed_glyphs@.contains_key(i) ==> parsed_glyph(
                self.records@,
                i,
                Ok(self.parsed_glyphs@[i].hori_adv),
                *self.parsed_glyphs@[i],
            )
    }

    /// The records of the glyph table.
    pub closed spec fn spec_records(self) -> Seq<ImtGlyfRecord> {
        self.records@
    }

    /// The glyphs built so far, by index.
    pub closed spec fn built(self) -> Map<u16, Arc<ImtParsedGlyph>> {
        self.parsed_glyphs@
    }

    /// A store over the records, with no glyph built yet.
    pub fn new(records: Vec<ImtGlyfRecord>) -> (s: Self)
        ensures
            s.spec_records() == records@,
            s.built() == Map::<u16, Arc<ImtParsedGlyph>>::empty(),
    {
        ImtGlyphStore { records, parsed_glyphs: BTreeMap::new() }
    }

    /// The glyph `index` where it was built.
    pub fn get(&self, index: u16) -> (r: Option<Arc<ImtParsedGlyph>>)
        ensures
            r is Some <==> self.built().contains_key(index),
            r matches Some(g) ==> g == self.built()[index] && parsed_glyph(
                self.spec_records(),
                index,
                Ok(g.hori_adv),
                *g,
            ),
    {
        proof {
            use_type_invariant(self);
        }
        match self.parsed_glyphs.get(&index) {
            Some(g) => Some(share(g)),
            None => None,
        }
    }

    /// The glyph `index`: the one built before where there is one, whatever
    /// the advance now given; else it is built from the records and from
    /// `hori_adv`, and kept where that succeeds.
    pub fn retrieve(&mut self, index: u16, hori_adv: Result<u16, ImtParseFailure>) -> (r: Result<
        Arc<ImtParsedGlyph>,
        ImtError,
    >)
        ensures
            final(self).spec_records() == old(self).spec_records(),
            old(self).built().contains_key(index) ==> r == Ok::<Arc<ImtParsedGlyph>, ImtError>(
                old(self).built()[index],
            ) && final(self).built() == old(self).built(),
            !old(self).built().contains_key(index) ==> match r {
                Ok(g) => parsed_glyph(old(self).spec_records(), index, hori_adv, *g)
                    && final(self).built() == old(self).built().insert(index, g),
                Err(e) => parsed_glyph_error(old(self).spec_records(), index, hori_adv, e)
                    && final(self).built() == old(self).built(),
            },
    {
        proof {
            use_type_invariant(&*self);
        }
        match self.parsed_glyphs.get(&index) {
            Some(g) => {
                return Ok(share(g));
            },
            None => {},
        }
        let glyph = match ImtParsedGlyph::build(&self.records, index, hori_adv) {
            Err(e) => {
                return Err(e);
            },
            Ok(glyph) => Arc::new(glyph),
        };
        let handle = share(&glyph);
        let mut glyphs: BTreeMap<u16, Arc<ImtParsedGlyph>> = BTreeMap::new();
        std::mem::swap(&mut glyphs, &mut self.parsed_glyphs);
        glyphs.insert(index, glyph);
        self.parsed_glyphs = glyphs;
        Ok(handle)
    }
}

} // verus!
