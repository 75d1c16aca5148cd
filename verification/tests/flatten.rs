use ilmenite::flatten::{count_chords, curve_at, draw_curve, draw_geometry, draw_line};
use ilmenite::scale::sqrt_ceil;
use ilmenite::{
    ImtBitmapData, ImtErrorSrc, ImtErrorTy, ImtFontProps, ImtGeometry, ImtGlyphBitmap,
    ImtParsedGlyph, ImtPoint, ImtRasterOpts, ImtScale, ImtTextHeight,
};
use std::sync::Arc;

fn height(v: f32) -> ImtTextHeight {
    ImtTextHeight::from_bits(v.to_bits()).unwrap()
}

fn units(x: i32, y: i32) -> ImtPoint {
    ImtPoint { x: x * 1024, y: y * 1024 }
}

fn glyph(geometry: Vec<ImtGeometry>) -> Arc<ImtParsedGlyph> {
    Arc::new(ImtParsedGlyph {
        glyph_index: 3,
        min_x: 0,
        min_y: 0,
        max_x: 100,
        max_y: 100,
        hori_adv: 100,
        geometry,
    })
}

fn assert_closed(lines: &[(ImtPoint, ImtPoint)]) {
    assert!(!lines.is_empty());
    for i in 0..lines.len() {
        assert_eq!(lines[i].1, lines[(i + 1) % lines.len()].0);
    }
}

#[test]
fn square_roots_round_up() {
    assert_eq!(sqrt_ceil(0), 0);
    assert_eq!(sqrt_ceil(1), 1);
    assert_eq!(sqrt_ceil(2), 2);
    assert_eq!(sqrt_ceil(4), 2);
    assert_eq!(sqrt_ceil(5), 3);
    assert_eq!(sqrt_ceil(1_000_000_000_000), 1_000_000);
    assert_eq!(sqrt_ceil(1_000_000_000_001), 1_000_001);
    assert_eq!(sqrt_ceil(1 << 66), 1 << 33);
    assert_eq!(sqrt_ceil((1 << 66) - 1), 1 << 33);
    assert_eq!(sqrt_ceil(u128::MAX), 1 << 64);
    assert_eq!(sqrt_ceil(((1 << 64) - 1) * ((1 << 64) - 1)), (1 << 64) - 1);
}

#[test]
fn points_of_a_curve() {
    let (a, b, c) = (units(0, 0), units(50, 100), units(100, 0));
    assert_eq!(curve_at(&a, &b, &c, 0, 4), a);
    assert_eq!(curve_at(&a, &b, &c, 1, 4), ImtPoint { x: 25600, y: 38400 });
    assert_eq!(curve_at(&a, &b, &c, 2, 4), units(50, 50));
    assert_eq!(curve_at(&a, &b, &c, 3, 4), ImtPoint { x: 76800, y: 38400 });
    assert_eq!(curve_at(&a, &b, &c, 4, 4), c);
    assert_eq!(curve_at(&a, &b, &c, 1, 10), units(10, 18));
    // rounding is downwards, below zero too
    let (a, b, c) = (ImtPoint { x: -1, y: 1 }, ImtPoint { x: -1, y: 1 }, ImtPoint { x: 0, y: 0 });
    assert_eq!(curve_at(&a, &b, &c, 1, 2), ImtPoint { x: -1, y: 0 });
    // the extremes of the coordinates
    let (a, b, c) = (
        ImtPoint { x: i32::MIN, y: i32::MAX },
        ImtPoint { x: i32::MAX, y: i32::MIN },
        ImtPoint { x: i32::MIN, y: i32::MAX },
    );
    assert_eq!(curve_at(&a, &b, &c, u32::MAX, u32::MAX), c);
    assert_eq!(curve_at(&a, &b, &c, 1, 2), ImtPoint { x: -1, y: -1 });
}

#[test]
fn quadratic_at_24_is_cut_in_four() {
    let (a, b, c) = (units(0, 0), units(50, 100), units(100, 0));
    // the ten lines of the trial measure 147.59 units, 3.46 half pixels at 24 / 2048
    let s = ImtScale::new(height(24.0), 2048);
    assert_eq!(count_chords(&a, &b, &c, &s), 4);
    let mut lines = Vec::new();
    draw_curve(&mut lines, &a, &b, &c, 4);
    assert_eq!(
        lines,
        vec![
            (a, ImtPoint { x: 25600, y: 38400 }),
            (ImtPoint { x: 25600, y: 38400 }, units(50, 50)),
            (units(50, 50), ImtPoint { x: 76800, y: 38400 }),
            (ImtPoint { x: 76800, y: 38400 }, c),
        ]
    );
}

#[test]
fn chord_count_grows_with_the_scale_and_is_three_at_least() {
    let (a, b, c) = (units(0, 0), units(50, 100), units(100, 0));
    assert_eq!(count_chords(&a, &b, &c, &ImtScale::new(height(1.0), 2048)), 3);
    assert_eq!(count_chords(&a, &b, &c, &ImtScale::new(height(12.0), 2048)), 3);
    // 147.59 units at one pixel per unit: 295.2 half pixels
    assert_eq!(count_chords(&a, &b, &c, &ImtScale::new(height(2048.0), 2048)), 296);
    // a curve of no length
    assert_eq!(count_chords(&a, &a, &a, &ImtScale::new(height(2048.0), 2048)), 3);
    // a straight curve of 100 units: exactly 200 half pixels
    let (a, b, c) = (units(0, 0), units(50, 0), units(100, 0));
    assert_eq!(count_chords(&a, &b, &c, &ImtScale::new(height(2048.0), 2048)), 200);
}

#[test]
fn lines_are_copied_and_curves_cut() {
    let s = ImtScale::new(height(24.0), 2048);
    let mut lines = Vec::new();
    draw_line(&mut lines, &units(1, 2), &units(3, 4));
    assert!(draw_geometry(&mut lines, &ImtGeometry::Line([units(3, 4), units(5, 6)]), &s));
    let curve = ImtGeometry::Curve([units(5, 6), units(55, 106), units(105, 6)]);
    assert!(draw_geometry(&mut lines, &curve, &s));
    assert_eq!(lines.len(), 2 + 4);
    assert_eq!(lines[0], (units(1, 2), units(3, 4)));
    assert_eq!(lines[1], (units(3, 4), units(5, 6)));
    assert_eq!(lines[2].0, units(5, 6));
    assert_eq!(lines[5].1, units(105, 6));
}

#[test]
fn outline_of_a_closed_contour_stays_closed() {
    let props = ImtFontProps::new(2048, 1707, 0, 0, 0).unwrap();
    let geometry = vec![
        ImtGeometry::Curve([units(0, 0), units(50, 100), units(100, 0)]),
        ImtGeometry::Line([units(100, 0), units(50, -20)]),
        ImtGeometry::Curve([units(50, -20), units(30, -70), units(0, 0)]),
    ];
    for h in [24.0f32, 7.3, 300.0, 2048.0] {
        let mut b =
            ImtGlyphBitmap::<()>::new(&props, glyph(geometry.clone()), height(h), &ImtRasterOpts::default())
                .unwrap();
        b.create_outline().unwrap();
        assert_closed(b.lines());
        assert!(b.lines().len() >= 7);
    }
}

#[test]
fn outline_is_appended_in_order() {
    let props = ImtFontProps::new(2048, 1707, 0, 0, 0).unwrap();
    let geometry = vec![
        ImtGeometry::Line([units(0, 0), units(100, 0)]),
        ImtGeometry::Curve([units(0, 0), units(50, 100), units(100, 0)]),
    ];
    let mut b = ImtGlyphBitmap::<()>::new(&props, glyph(geometry), height(24.0), &ImtRasterOpts::default())
        .unwrap();
    b.create_outline().unwrap();
    assert_eq!(b.lines().len(), 5);
    b.create_outline().unwrap();
    assert_eq!(b.lines().len(), 10);
    assert_eq!(b.lines()[0], b.lines()[5]);
    assert_eq!(b.lines()[9].1, units(100, 0));
}

#[test]
fn glyph_without_outline_is_empty() {
    let props = ImtFontProps::new(2048, 1707, 0, 0, 0).unwrap();
    let b = ImtGlyphBitmap::<()>::prepare(&props, glyph(vec![]), height(24.0), &ImtRasterOpts::default())
        .unwrap();
    assert!(b.lines().is_empty());
    assert!(b.is_blank());
    assert!(matches!(b.data(), Some(ImtBitmapData::Empty)));
    assert_eq!(b.metrics().width, 3);
}

#[test]
fn hairline_is_not_empty() {
    let props = ImtFontProps::new(2048, 1707, 0, 0, 0).unwrap();
    let parsed = Arc::new(ImtParsedGlyph {
        glyph_index: 3,
        min_x: 0,
        min_y: 0,
        max_x: 100,
        max_y: 0,
        hori_adv: 100,
        geometry: vec![ImtGeometry::Line([units(0, 0), units(100, 0)])],
    });
    let b = ImtGlyphBitmap::<()>::prepare(&props, parsed, height(16.0), &ImtRasterOpts::default()).unwrap();
    // 100 units are 0.78 px: the bitmap is two pixels wide and one high
    assert_eq!(b.metrics().width, 2);
    assert_eq!(b.metrics().height, 1);
    assert_eq!(b.lines(), &vec![(units(0, 0), units(100, 0))]);
    assert!(!b.is_blank());
    assert!(b.data().is_none());
}

#[test]
fn curve_of_too_many_lines_is_refused() {
    let props = ImtFontProps::new(1, 0, 0, 0, 0).unwrap();
    let long = ImtGeometry::Curve([
        ImtPoint { x: 0, y: 0 },
        ImtPoint { x: 1 << 30, y: 0 },
        ImtPoint { x: i32::MAX, y: 0 },
    ]);
    let geometry = vec![ImtGeometry::Line([units(0, 0), units(1, 1)]), long];
    let parsed = Arc::new(ImtParsedGlyph {
        glyph_index: 3,
        min_x: 0,
        min_y: 0,
        max_x: 1,
        max_y: 1,
        hori_adv: 100,
        geometry,
    });
    let opts = ImtRasterOpts::default();
    let mut b = ImtGlyphBitmap::<()>::new(&props, parsed.clone(), height(16777215.0), &opts).unwrap();
    let e = b.create_outline().unwrap_err();
    assert_eq!(e.src, ImtErrorSrc::Bitmap);
    assert_eq!(e.ty, ImtErrorTy::FileLimitExceeded);
    assert!(b.lines().is_empty());
    assert!(ImtGlyphBitmap::<()>::prepare(&props, parsed, height(16777215.0), &opts).is_err());
    let s = ImtScale::new(height(16777215.0), 1);
    let mut lines = vec![(units(0, 0), units(1, 1))];
    assert!(!draw_geometry(&mut lines, &long, &s));
    assert_eq!(lines.len(), 1);
}

#[test]
fn distance_rounds_up() {
    let o = ImtPoint { x: 0, y: 0 };
    assert_eq!(o.dist(&o), 0);
    assert_eq!(o.dist(&ImtPoint { x: 3, y: 4 }), 5);
    assert_eq!(ImtPoint { x: 3, y: 4 }.dist(&o), 5);
    assert_eq!(o.dist(&ImtPoint { x: 1, y: 1 }), 2);
    assert_eq!(o.dist(&ImtPoint { x: -10240, y: 18432 }), 21086);
    let far = ImtPoint { x: i32::MIN, y: i32::MIN }.dist(&ImtPoint { x: i32::MAX, y: i32::MAX });
    assert_eq!(far, 6074000999);
}

#[test]
fn point_part_of_the_way() {
    let a = ImtPoint { x: 0, y: 10 };
    let b = ImtPoint { x: 10, y: -10 };
    assert_eq!(a.lerp(0, 4, &b), a);
    assert_eq!(a.lerp(4, 4, &b), b);
    assert_eq!(a.lerp(1, 4, &b), ImtPoint { x: 2, y: 5 });
    assert_eq!(a.lerp(1, 3, &b), ImtPoint { x: 3, y: 3 });
    assert_eq!(b.lerp(1, 3, &a), ImtPoint { x: 6, y: -4 });
    let lo = ImtPoint { x: i32::MIN, y: i32::MAX };
    let hi = ImtPoint { x: i32::MAX, y: i32::MIN };
    assert_eq!(lo.lerp(u16::MAX, u16::MAX, &hi), hi);
    assert_eq!(lo.lerp(1, 2, &hi), ImtPoint { x: -1, y: -1 });
}
