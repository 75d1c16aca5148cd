use ilmenite::outline::draw_contour;
use ilmenite::parse::{
    draw_simple, glyph_for_char, text_chars, ImtGlyphStore,
};
use ilmenite::{
    ImtBoundingBox, ImtComponent, ImtContourPoint, ImtError, ImtErrorSrc, ImtErrorTy, ImtGeometry,
    ImtGlyfRecord, ImtParseFailure, ImtParsedGlyph, ImtPoint,
};
use std::sync::Arc;

fn on(x: i16, y: i16) -> ImtContourPoint {
    ImtContourPoint { x, y, on_curve: true }
}

fn off(x: i16, y: i16) -> ImtContourPoint {
    ImtContourPoint { x, y, on_curve: false }
}

/// A point given in halves of a design unit.
fn halves(x: i32, y: i32) -> ImtPoint {
    ImtPoint { x: x * 512, y: y * 512 }
}

fn units(x: i32, y: i32) -> ImtPoint {
    ImtPoint { x: x * 1024, y: y * 1024 }
}

fn first(g: &ImtGeometry) -> ImtPoint {
    g.first_point()
}

fn last(g: &ImtGeometry) -> ImtPoint {
    g.last_point()
}

fn assert_closed(g: &[ImtGeometry]) {
    assert!(!g.is_empty());
    for i in 0..g.len() {
        assert_eq!(last(&g[i]), first(&g[(i + 1) % g.len()]));
    }
}

fn contour(points: &[ImtContourPoint], gox: i32, goy: i32) -> Vec<ImtGeometry> {
    let mut out = Vec::new();
    draw_contour(&points.to_vec(), gox, goy, &mut out);
    out
}

fn bbox(x_min: i16, y_min: i16, x_max: i16, y_max: i16) -> ImtBoundingBox {
    ImtBoundingBox { x_min, y_min, x_max, y_max }
}

fn square(at: i16) -> ImtGlyfRecord {
    ImtGlyfRecord::Simple {
        bounding_box: bbox(at, at, at + 100, at + 100),
        points: vec![on(at, at), on(at + 100, at), on(at + 100, at + 100), on(at, at + 100)],
        end_pts: vec![3],
    }
}

#[test]
fn square_contour_is_four_lines() {
    let g = contour(&[on(10, 10), on(110, 10), on(110, 110), on(10, 110)], 0, 0);
    assert_eq!(
        g,
        vec![
            ImtGeometry::Line([units(10, 10), units(110, 10)]),
            ImtGeometry::Line([units(110, 10), units(110, 110)]),
            ImtGeometry::Line([units(110, 110), units(10, 110)]),
            ImtGeometry::Line([units(10, 110), units(10, 10)]),
        ]
    );
    assert_closed(&g);
}

#[test]
fn off_curve_point_between_on_curve_points_is_a_curve() {
    let g = contour(&[on(0, 0), off(50, 100), on(100, 0)], 0, 0);
    assert_eq!(
        g,
        vec![
            ImtGeometry::Curve([units(0, 0), units(50, 100), units(100, 0)]),
            ImtGeometry::Line([units(100, 0), units(0, 0)]),
        ]
    );
    assert_closed(&g);
}

#[test]
fn neighbouring_off_curve_points_meet_half_way() {
    let g = contour(&[on(0, 0), off(10, 21), off(30, 21), on(40, 0)], 0, 0);
    assert_eq!(
        g,
        vec![
            ImtGeometry::Curve([units(0, 0), units(10, 21), halves(40, 42)]),
            ImtGeometry::Curve([halves(40, 42), units(30, 21), units(40, 0)]),
            ImtGeometry::Line([units(40, 0), units(0, 0)]),
        ]
    );
    assert_closed(&g);
}

#[test]
fn contour_of_off_curve_points_only() {
    let g = contour(&[off(0, 0), off(11, 0), off(11, 11), off(0, 11)], 0, 0);
    assert_eq!(g.len(), 4);
    assert_eq!(g[0], ImtGeometry::Curve([halves(0, 11), units(0, 0), halves(11, 0)]));
    assert_eq!(g[3], ImtGeometry::Curve([halves(11, 22), units(0, 11), halves(0, 11)]));
    assert_closed(&g);
}

#[test]
fn contours_of_one_and_two_points() {
    let g = contour(&[on(5, 6)], 0, 0);
    assert_eq!(g, vec![ImtGeometry::Line([units(5, 6), units(5, 6)])]);
    let g = contour(&[off(5, 6)], 0, 0);
    assert_eq!(g, vec![ImtGeometry::Curve([units(5, 6), units(5, 6), units(5, 6)])]);
    let g = contour(&[on(0, 0), off(8, 8)], 0, 0);
    assert_eq!(g, vec![ImtGeometry::Curve([units(0, 0), units(8, 8), units(0, 0)])]);
    assert_closed(&g);
    let g = contour(&[], 0, 0);
    assert!(g.is_empty());
}

#[test]
fn offset_moves_every_point() {
    let g = contour(&[on(0, 0), off(10, 21), off(30, 21), on(40, 0)], 100, -50);
    assert_eq!(g[0], ImtGeometry::Curve([units(100, -50), units(110, -29), halves(240, -58)]));
    assert_eq!(g[2], ImtGeometry::Line([units(140, -50), units(100, -50)]));
    assert_closed(&g);
    let g = contour(&[on(i16::MAX, i16::MIN), off(i16::MIN, i16::MAX)], 0x1_0000, -0x1_0000);
    assert_eq!(first(&g[0]), units(32767 + 65536, -32768 - 65536));
    assert_closed(&g);
}

#[test]
fn contours_are_split_at_their_ends() {
    let points = vec![on(0, 0), on(10, 0), on(10, 10), on(50, 50), off(60, 70), on(99, 99)];
    let mut out = vec![ImtGeometry::Line([units(1, 1), units(2, 2)])];
    draw_simple(&points, &vec![2, 4], 0, 0, &mut out);
    // one piece kept, three lines of the first contour, two pieces of the second;
    // the last point lies after the last end and belongs to no contour
    assert_eq!(out.len(), 1 + 3 + 1);
    assert_eq!(out[0], ImtGeometry::Line([units(1, 1), units(2, 2)]));
    assert_closed(&out[1..4]);
    assert_eq!(out[4], ImtGeometry::Curve([units(50, 50), units(60, 70), units(50, 50)]));
    let mut none = Vec::new();
    draw_simple(&points, &vec![], 0, 0, &mut none);
    assert!(none.is_empty());
}

#[test]
fn simple_glyph_is_built() {
    let records = vec![ImtGlyfRecord::Empty, square(10)];
    let g = ImtParsedGlyph::build(&records, 1, Ok(600)).unwrap();
    assert_eq!(g.glyph_index, 1);
    assert_eq!((g.min_x, g.min_y, g.max_x, g.max_y), (10, 10, 110, 110));
    assert_eq!(g.hori_adv, 600);
    assert_eq!(g.geometry.len(), 4);
    assert_closed(&g.geometry);
}

#[test]
fn empty_glyph_has_no_outline_and_a_zero_box() {
    let records = vec![ImtGlyfRecord::Empty, square(10)];
    let g = ImtParsedGlyph::build(&records, 0, Ok(250)).unwrap();
    assert_eq!((g.min_x, g.min_y, g.max_x, g.max_y), (0, 0, 0, 0));
    assert_eq!(g.hori_adv, 250);
    assert!(g.geometry.is_empty());
}

#[test]
fn composite_glyph_visits_last_component_first() {
    let records = vec![
        ImtGlyfRecord::Composite {
            bounding_box: bbox(0, 0, 500, 100),
            components: vec![
                ImtComponent { glyph_index: 1, x: 0, y: 0 },
                ImtComponent { glyph_index: 1, x: 400, y: -20 },
            ],
        },
        square(0),
    ];
    let g = ImtParsedGlyph::build(&records, 0, Ok(1)).unwrap();
    assert_eq!(g.geometry.len(), 8);
    assert_eq!(first(&g.geometry[0]), units(400, -20));
    assert_eq!(first(&g.geometry[4]), units(0, 0));
    assert_closed(&g.geometry[..4]);
    assert_closed(&g.geometry[4..]);
    // the box of a component is moved by its offset, as its outline is
    assert_eq!((g.min_x, g.min_y, g.max_x, g.max_y), (0, -20, 500, 100));
}

#[test]
fn missing_and_unreadable_records_fail() {
    let records = vec![
        ImtGlyfRecord::Composite {
            bounding_box: bbox(0, 0, 1, 1),
            components: vec![ImtComponent { glyph_index: 9, x: 0, y: 0 }],
        },
        ImtGlyfRecord::Unreadable(ImtParseFailure::BadOffset),
        ImtGlyfRecord::Composite {
            bounding_box: bbox(0, 0, 1, 1),
            components: vec![ImtComponent { glyph_index: 3, x: 0x1_0001, y: 0 }],
        },
        square(0),
    ];
    let e = ImtParsedGlyph::build(&records, 0, Ok(1)).unwrap_err();
    assert_eq!(e, ImtError::src_and_ty(ImtErrorSrc::Glyf, ImtErrorTy::MissingGlyph));
    let e = ImtParsedGlyph::build(&records, 4, Ok(1)).unwrap_err();
    assert_eq!(e, ImtError::src_and_ty(ImtErrorSrc::Glyf, ImtErrorTy::MissingGlyph));
    let e = ImtParsedGlyph::build(&records, 1, Ok(1)).unwrap_err();
    assert_eq!(e, ImtError::src_and_ty(ImtErrorSrc::Glyf, ImtErrorTy::FileBadOffset));
    let e = ImtParsedGlyph::build(&records, 2, Ok(1)).unwrap_err();
    assert_eq!(e, ImtError::src_and_ty(ImtErrorSrc::Glyf, ImtErrorTy::FileBadValue));
}

#[test]
fn failure_of_the_advance_comes_after_the_outline() {
    let records = vec![square(0), ImtGlyfRecord::Unreadable(ImtParseFailure::BadEof)];
    let e = ImtParsedGlyph::build(&records, 0, Err(ImtParseFailure::BadIndex)).unwrap_err();
    assert_eq!(e, ImtError::src_and_ty(ImtErrorSrc::Glyph, ImtErrorTy::FileBadIndex));
    let e = ImtParsedGlyph::build(&records, 1, Err(ImtParseFailure::BadIndex)).unwrap_err();
    assert_eq!(e, ImtError::src_and_ty(ImtErrorSrc::Glyf, ImtErrorTy::FileBadEof));
}

#[test]
fn glyph_that_holds_itself_is_refused() {
    let records = vec![
        ImtGlyfRecord::Composite {
            bounding_box: bbox(0, 0, 1, 1),
            components: vec![ImtComponent { glyph_index: 1, x: 0, y: 0 }],
        },
        ImtGlyfRecord::Composite {
            bounding_box: bbox(0, 0, 1, 1),
            components: vec![ImtComponent { glyph_index: 0, x: 5, y: 5 }],
        },
    ];
    let e = ImtParsedGlyph::build(&records, 0, Ok(1)).unwrap_err();
    assert_eq!(e, ImtError::src_and_ty(ImtErrorSrc::Glyf, ImtErrorTy::UnimplementedDataTy));
}

#[test]
fn glyph_that_is_its_own_component_is_refused() {
    let records = vec![
        ImtGlyfRecord::Composite {
            bounding_box: bbox(0, 0, 1, 1),
            components: vec![
                ImtComponent { glyph_index: 1, x: 0, y: 0 },
                ImtComponent { glyph_index: 0, x: 0, y: 0 },
            ],
        },
        square(0),
    ];
    let e = ImtParsedGlyph::build(&records, 0, Ok(1)).unwrap_err();
    assert_eq!(e, ImtError::src_and_ty(ImtErrorSrc::Glyf, ImtErrorTy::UnimplementedDataTy));
}

#[test]
fn components_nest_as_deep_as_the_table_allows() {
    // record i holds record i + 1; the last is a square
    let mut records = Vec::new();
    for i in 0..300u16 {
        records.push(ImtGlyfRecord::Composite {
            bounding_box: bbox(0, 0, 1, 1),
            components: vec![ImtComponent { glyph_index: i + 1, x: 1, y: 0 }],
        });
    }
    records.push(square(0));
    let g = ImtParsedGlyph::build(&records, 0, Ok(1)).unwrap();
    assert_eq!(g.geometry.len(), 4);
    // each component is placed by its own offset alone
    assert_eq!(first(&g.geometry[0]), units(1, 0));
    // the same chain closed into a circle is refused
    records[299] = ImtGlyfRecord::Composite {
        bounding_box: bbox(0, 0, 1, 1),
        components: vec![ImtComponent { glyph_index: 7, x: 0, y: 0 }],
    };
    let e = ImtParsedGlyph::build(&records, 0, Ok(1)).unwrap_err();
    assert_eq!(e.ty, ImtErrorTy::UnimplementedDataTy);
    // from a glyph outside the circle too, and not from the square
    assert!(ImtParsedGlyph::build(&records, 150, Ok(1)).is_err());
    assert!(ImtParsedGlyph::build(&records, 300, Ok(1)).is_ok());
}

#[test]
fn glyph_met_twice_on_different_ways_is_no_circle() {
    // 0 holds 1 and 2, both of which hold 3, which holds the square
    let holds = |parts: &[u16]| ImtGlyfRecord::Composite {
        bounding_box: bbox(0, 0, 1, 1),
        components: parts.iter().map(|p| ImtComponent { glyph_index: *p, x: 0, y: 0 }).collect(),
    };
    let records = vec![holds(&[1, 2]), holds(&[3]), holds(&[3, 3]), holds(&[4]), square(0)];
    let g = ImtParsedGlyph::build(&records, 0, Ok(1)).unwrap();
    assert_eq!(g.geometry.len(), 3 * 4);
}

#[test]
fn store_builds_each_glyph_once() {
    let mut store = ImtGlyphStore::new(vec![square(0), ImtGlyfRecord::Unreadable(ImtParseFailure::BadEof)]);
    assert!(store.get(0).is_none());
    let a = store.retrieve(0, Ok(500)).unwrap();
    let b = store.retrieve(0, Err(ImtParseFailure::BadIndex)).unwrap();
    assert!(Arc::ptr_eq(&a, &b));
    assert_eq!(b.hori_adv, 500);
    assert!(Arc::ptr_eq(&a, &store.get(0).unwrap()));
    let e = store.retrieve(1, Ok(500)).unwrap_err();
    assert_eq!(e.ty, ImtErrorTy::FileBadEof);
    assert!(store.get(1).is_none());
}

#[test]
fn character_without_glyph_takes_the_question_mark() {
    assert_eq!(glyph_for_char(Ok(Some(7)), Ok(Some(3))), Ok(7));
    assert_eq!(glyph_for_char(Ok(None), Ok(Some(3))), Ok(3));
    assert_eq!(
        glyph_for_char(Ok(Some(7)), Ok(None)),
        Err(ImtError::src_and_ty(ImtErrorSrc::Cmap, ImtErrorTy::MissingGlyph))
    );
    assert_eq!(
        glyph_for_char(Err(ImtParseFailure::BadValue), Err(ImtParseFailure::BadEof)),
        Err(ImtError::src_and_ty(ImtErrorSrc::Cmap, ImtErrorTy::FileBadValue))
    );
    assert_eq!(
        glyph_for_char(Ok(Some(7)), Err(ImtParseFailure::BadEof)),
        Err(ImtError::src_and_ty(ImtErrorSrc::Cmap, ImtErrorTy::FileBadEof))
    );
}

#[test]
fn carriage_returns_are_left_out_of_a_text() {
    assert_eq!(text_chars("a\r\nb\r"), vec!['a', '\n', 'b']);
    assert_eq!(text_chars("\r\r"), Vec::<char>::new());
    assert_eq!(text_chars(""), Vec::<char>::new());
    assert_eq!(text_chars("h\u{e9}llo \u{4e16}"), vec!['h', '\u{e9}', 'l', 'l', 'o', ' ', '\u{4e16}']);
}
