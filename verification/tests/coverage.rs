use ilmenite::raster::{ray_inside, subpixel_offset};
use ilmenite::{
    ImtBitmapData, ImtContourPoint, ImtFillQuality, ImtFontProps, ImtGeometry, ImtGlyfRecord,
    ImtGlyphBitmap, ImtParsedGlyph, ImtPoint, ImtRasterOpts, ImtRatio, ImtSampleQuality,
    ImtTextHeight, ImtBoundingBox,
};
use std::sync::Arc;

fn height(v: f32) -> ImtTextHeight {
    ImtTextHeight::from_bits(v.to_bits()).unwrap()
}

fn ratio(r: ImtRatio) -> f32 {
    r.num as f32 / r.den as f32
}

fn crossing(a: [f32; 2], b: [f32; 2], c: [f32; 2], d: [f32; 2]) -> Option<[f32; 2]> {
    let r = [b[0] - a[0], b[1] - a[1]];
    let s = [d[0] - c[0], d[1] - c[1]];
    let det = r[0] * s[1] - r[1] * s[0];
    if det == 0.0 {
        return None;
    }
    let u = ((c[0] - a[0]) * r[1] - (c[1] - a[1]) * r[0]) / det;
    let t = ((c[0] - a[0]) * s[1] - (c[1] - a[1]) * s[0]) / det;
    if (0.0..=1.0).contains(&t) && (0.0..=1.0).contains(&u) {
        Some([a[0] + r[0] * t, a[1] + r[1] * t])
    } else {
        None
    }
}

/// Fills a prepared bitmap as a rasterizer does: samples on the grid of the
/// library, rays in equal parts of a turn, the votes and the layout of the
/// pixel data by the library.
fn fill(bitmap: &mut ImtGlyphBitmap<()>, opts: &ImtRasterOpts) {
    if bitmap.raster_blank() {
        return;
    }
    let len = bitmap.buffer_len().unwrap();
    let scale = bitmap.scale();
    let scaler = scale.numerator() as f32 / scale.denominator() as f32;
    let (width, height) = (bitmap.metrics().width, bitmap.metrics().height);
    let (min_x, max_y) = (bitmap.parsed().min_x as f32, bitmap.parsed().max_y as f32);
    let offset = [ratio(bitmap.offset_x()), ratio(bitmap.offset_y())];
    let lines: Vec<[f32; 4]> = bitmap
        .lines()
        .iter()
        .map(|(a, b)| [a.x as f32 / 1024.0, a.y as f32 / 1024.0, b.x as f32 / 1024.0, b.y as f32 / 1024.0])
        .collect();
    let samples = opts.sample_quality.sample_offsets();
    let ray_count = opts.ray_count();
    let rays: Vec<[f32; 2]> = (0..ray_count)
        .map(|i| {
            let rad = (i as f32 * (360.0 / ray_count as f32)).to_radians();
            [rad.cos(), rad.sin()]
        })
        .collect();
    let cell_height = scaler / (samples.len() as f32).sqrt();
    let cell_width = cell_height / 3.0;
    let ray_len = ((width as f32 / scaler).powi(2) + (height as f32 / scaler).powi(2)).sqrt();

    let sample_filled = |src: [f32; 2]| -> Option<f32> {
        let mut rays_filled = 0;
        let mut amount = 0.0;
        for ray in &rays {
            let dest = [src[0] + ray[0] * ray_len, src[1] + ray[1] * ray_len];
            let angle = (ray[1] / ray[0]).atan();
            let mut max_dist = (cell_width / 2.0) / angle.cos();
            if max_dist > cell_height / 2.0 {
                max_dist = (cell_height / 2.0) / (std::f32::consts::FRAC_PI_2 - angle).cos();
            }
            let mut min_dist = max_dist;
            let mut hits = 0;
            for line in &lines {
                if let Some(p) = crossing(src, dest, [line[0], line[1]], [line[2], line[3]]) {
                    let dist = ((src[0] - p[0]).powi(2) + (src[1] - p[1]).powi(2)).sqrt();
                    min_dist = min_dist.min(dist);
                    hits += 1;
                }
            }
            if ray_inside(hits) {
                rays_filled += 1;
                amount += min_dist / max_dist;
            }
        }
        if opts.fill_quality.sample_filled(rays_filled) {
            Some(amount / rays_filled as f32)
        } else {
            None
        }
    };

    let value = |x: u32, y: u32, channel: u8| -> f32 {
        let mut sum = 0.0;
        for sample in &samples {
            let (px, py) = bitmap.sample_position(x, y, opts.sample_quality, *sample, channel);
            // the same place, computed in floating point
            let sub = f32::from(subpixel_offset(channel)) / 6.0;
            let den = opts.sample_quality.grid_side() as f32 + 1.0;
            let fx = (x as f32 - offset[0] + sample.0 as f32 / den + sub) / scaler + min_x;
            let fy = (-(y as f32) - offset[1] + sample.1 as f32 / den) / scaler + max_y;
            let src = [px.num as f32 / px.den as f32, py.num as f32 / py.den as f32];
            assert!((src[0] - fx).abs() < 0.01 && (src[1] - fy).abs() < 0.01);
            if let Some(v) = sample_filled(src) {
                sum += v;
            }
        }
        sum / samples.len() as f32
    };

    let mut pixels = vec![0.0f32.to_bits(); len];
    for x in 0..width {
        for y in 0..height {
            let at = bitmap.pixel_index(x, y);
            let (r, g, b) = (value(x, y, 0), value(x, y, 1), value(x, y, 2));
            let a = ((r + g + b) / 3.0).clamp(0.0, 1.0);
            if a > 0.0 {
                pixels[at] = (r / a).to_bits();
                pixels[at + 1] = (g / a).to_bits();
                pixels[at + 2] = (b / a).to_bits();
            }
            pixels[at + 3] = a.to_bits();
        }
    }
    bitmap.set_lrgba(pixels).unwrap();
}

fn alpha(bitmap: &ImtGlyphBitmap<()>, x: u32, y: u32) -> f32 {
    match bitmap.data() {
        Some(ImtBitmapData::LRGBA(v)) => f32::from_bits(v[bitmap.pixel_index(x, y) + 3]),
        _ => panic!("pixel data expected"),
    }
}

fn font() -> ImtFontProps {
    ImtFontProps::new(2048, 1707, -400, 0, 0).unwrap()
}

fn square_glyph() -> Arc<ImtParsedGlyph> {
    let on = |x, y| ImtContourPoint { x, y, on_curve: true };
    let records = vec![ImtGlyfRecord::Simple {
        bounding_box: ImtBoundingBox { x_min: 10, y_min: 10, x_max: 110, y_max: 110 },
        points: vec![on(10, 10), on(110, 10), on(110, 110), on(10, 110)],
        end_pts: vec![3],
    }];
    Arc::new(ImtParsedGlyph::build(&records, 0, Ok(120)).unwrap())
}

/// The square of 10 to 110 units in a box that leaves room around it.
fn square_with_room() -> Arc<ImtParsedGlyph> {
    let square = square_glyph();
    Arc::new(ImtParsedGlyph {
        glyph_index: 0,
        min_x: -90,
        min_y: -90,
        max_x: 210,
        max_y: 210,
        hori_adv: 120,
        geometry: square.geometry.clone(),
    })
}

#[test]
fn square_is_filled_inside_and_clear_outside() {
    // 100 units at 1/16 px per unit: a square of 6.25 px
    let opts = ImtRasterOpts { cpu_rasterization: true, ..ImtRasterOpts::default() };
    let mut b =
        ImtGlyphBitmap::<()>::prepare(&font(), square_with_room(), height(128.0), &opts).unwrap();
    assert_eq!(b.lines().len(), 4);
    assert_eq!((b.metrics().width, b.metrics().height), (21, 21));
    fill(&mut b, &opts);
    let offset = [ratio(b.offset_x()), ratio(b.offset_y())];
    let (mut full, mut part, mut clear) = (0, 0, 0);
    for y in 0..21 {
        for x in 0..21 {
            let a = alpha(&b, x, y);
            assert!((0.0..=1.0).contains(&a));
            // what the samples of the pixel reach, in design units
            let left = (x as f32 - offset[0] - 0.6 + 1.0 / 6.0) * 16.0 - 90.0;
            let right = (x as f32 - offset[0] + 0.6 + 5.0 / 6.0) * 16.0 - 90.0;
            let low = (-(y as f32) - offset[1] - 0.6) * 16.0 + 210.0;
            let high = (-(y as f32) - offset[1] + 0.6) * 16.0 + 210.0;
            if left > 11.0 && right < 109.0 && low > 11.0 && high < 109.0 {
                assert!(a > 0.999, "pixel {} {} inside has alpha {}", x, y, a);
                full += 1;
            } else if right < 9.0 || left > 111.0 || high < 9.0 || low > 111.0 {
                assert_eq!(a, 0.0, "pixel {} {} outside", x, y);
                clear += 1;
            } else if a > 0.0 && a < 1.0 {
                part += 1;
            }
        }
    }
    assert!(full >= 16, "{} full pixels", full);
    assert!(clear >= 200, "{} clear pixels", clear);
    assert!(part >= 8, "{} partial pixels", part);
}

#[test]
fn rasterizing_again_gives_the_same_bitmap() {
    let opts = ImtRasterOpts { cpu_rasterization: true, ..ImtRasterOpts::default() };
    let mut first =
        ImtGlyphBitmap::<()>::prepare(&font(), square_with_room(), height(64.0), &opts).unwrap();
    let mut second =
        ImtGlyphBitmap::<()>::prepare(&font(), square_with_room(), height(64.0), &opts).unwrap();
    assert_eq!(first.metrics(), second.metrics());
    assert_eq!(first.lines(), second.lines());
    assert_eq!(
        (first.scale().numerator(), first.scale().denominator()),
        (second.scale().numerator(), second.scale().denominator())
    );
    assert_eq!(ratio(first.offset_x()), ratio(second.offset_x()));
    assert_eq!(ratio(first.offset_y()), ratio(second.offset_y()));
    fill(&mut first, &opts);
    fill(&mut second, &opts);
    match (first.data(), second.data()) {
        (Some(ImtBitmapData::LRGBA(a)), Some(ImtBitmapData::LRGBA(b))) => {
            assert_eq!(a.len(), first.buffer_len().unwrap());
            assert!(a.iter().any(|v| *v != 0));
            assert_eq!(a, b);
        }
        _ => panic!("pixel data expected"),
    }
}

#[test]
fn square_at_32_has_a_small_bitmap() {
    let opts = ImtRasterOpts { cpu_rasterization: true, ..ImtRasterOpts::default() };
    let mut b = ImtGlyphBitmap::<()>::prepare(&font(), square_glyph(), height(32.0), &opts).unwrap();
    assert_eq!((b.metrics().width, b.metrics().height), (3, 3));
    fill(&mut b, &opts);
    let mut sum = 0.0;
    for y in 0..3 {
        for x in 0..3 {
            let a = alpha(&b, x, y);
            assert!((0.0..=1.0).contains(&a));
            sum += a;
        }
    }
    // 1.5625 px squared are covered
    assert!(sum > 1.0 && sum < 4.0, "sum of alpha {}", sum);
}

#[test]
fn hairline_has_next_to_no_coverage() {
    let opts = ImtRasterOpts { cpu_rasterization: true, ..ImtRasterOpts::default() };
    let p = |x: i32, y: i32| ImtPoint { x: x * 1024, y: y * 1024 };
    let parsed = Arc::new(ImtParsedGlyph {
        glyph_index: 1,
        min_x: 0,
        min_y: 0,
        max_x: 100,
        max_y: 0,
        hori_adv: 100,
        geometry: vec![ImtGeometry::Line([p(0, 0), p(100, 0)])],
    });
    let mut b = ImtGlyphBitmap::<()>::prepare(&font(), parsed, height(16.0), &opts).unwrap();
    fill(&mut b, &opts);
    let mut sum = 0.0;
    for y in 0..b.metrics().height {
        for x in 0..b.metrics().width {
            let a = alpha(&b, x, y);
            assert!((0.0..=1.0).contains(&a));
            sum += a;
        }
    }
    // the line is 0.78 px long
    assert!((sum - 0.78).abs() <= 1.0, "sum of alpha {}", sum);
}

#[test]
fn colour_is_alpha_apart_from_transparent_pixels() {
    let opts = ImtRasterOpts {
        cpu_rasterization: true,
        fill_quality: ImtFillQuality::Fast,
        sample_quality: ImtSampleQuality::Fast,
        ..ImtRasterOpts::default()
    };
    let mut b = ImtGlyphBitmap::<()>::prepare(&font(), square_glyph(), height(64.0), &opts).unwrap();
    fill(&mut b, &opts);
    let data = match b.data() {
        Some(ImtBitmapData::LRGBA(v)) => v.iter().map(|bits| f32::from_bits(*bits)).collect::<Vec<_>>(),
        _ => panic!("pixel data expected"),
    };
    assert_eq!(data.len(), 4 * (b.metrics().width * b.metrics().height) as usize);
    for px in data.chunks(4) {
        let (r, g, bl, a) = (px[0], px[1], px[2], px[3]);
        assert!((0.0..=1.0).contains(&a));
        if a == 0.0 {
            assert_eq!((r, g, bl), (0.0, 0.0, 0.0));
        } else {
            // the mean of the colours before they were divided by alpha is alpha
            assert!(((r * a + g * a + bl * a) / 3.0 - a).abs() < 1e-5);
        }
    }
}

#[test]
fn sample_is_placed_exactly() {
    let parsed = Arc::new(ImtParsedGlyph {
        glyph_index: 1,
        min_x: 0,
        min_y: 0,
        max_x: 1024,
        max_y: 1024,
        hori_adv: 1100,
        geometry: vec![],
    });
    let b = ImtGlyphBitmap::<()>::new(&font(), parsed.clone(), height(32.0), &ImtRasterOpts::default())
        .unwrap();
    // the shifts are 1 and -1/8 px; the sample lies at -3/5 px, the subpixel at 1/6 px:
    // (0 - 1 - 3/5 + 1/6) * 64 = -1376/15 and (0 + 1/8 - 3/5) * 64 + 1024 = 4968/5
    let (x, y) = b.sample_position(0, 0, ImtSampleQuality::Normal, (-3, -3), 0);
    assert_eq!(x.num * 15, -1376 * x.den as i128);
    assert_eq!(y.num * 5, 4968 * y.den as i128);
    assert_eq!(x.den, y.den);
    // one pixel to the right and two down, the blue subpixel of the last sample
    let (x, y) = b.sample_position(1, 2, ImtSampleQuality::Normal, (3, 3), 2);
    // (1 - 1 + 3/5 + 5/6) * 64 = 1376/15 and (-2 + 1/8 + 3/5) * 64 + 1024 = 4712/5
    assert_eq!(x.num * 15, 1376 * x.den as i128);
    assert_eq!(y.num * 5, 4712 * y.den as i128);
    // without alignment nothing is shifted
    let opts = ImtRasterOpts { align_whole_pixels: false, ..ImtRasterOpts::default() };
    let b = ImtGlyphBitmap::<()>::new(&font(), parsed, height(32.0), &opts).unwrap();
    let (x, y) = b.sample_position(3, 0, ImtSampleQuality::Fastest, (0, 0), 1);
    assert_eq!(x.num * 2, 7 * 64 * x.den as i128);
    assert_eq!(y.num, 1024 * y.den as i128);
}
