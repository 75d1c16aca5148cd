use ilmenite::raster::{ray_inside, subpixel_offset};
use vulkano::format::Format;
use ilmenite::raster_v2::gpu::{stencil_metrics, vertex_count, ImtStencilMetrics};
use ilmenite::raster_v2::{ImtRasterGpu, ImtRasterOps, ImtSSAA, ImtSubPixel};
use ilmenite::{
    ImtFillQuality, ImtGeometry, ImtPoint, ImtRaster, ImtRasterOpts, ImtSampleQuality, ImtScale,
    ImtTextHeight,
};

fn height(v: f32) -> ImtTextHeight {
    ImtTextHeight::from_bits(v.to_bits()).unwrap()
}

#[test]
fn ray_counts() {
    assert_eq!(ImtFillQuality::Fast.ray_count(), 3);
    assert_eq!(ImtFillQuality::Normal.ray_count(), 5);
    assert_eq!(ImtFillQuality::Best.ray_count(), 13);
}

#[test]
fn sample_counts() {
    let all = [
        (ImtSampleQuality::Fastest, 1, 1),
        (ImtSampleQuality::Faster, 4, 2),
        (ImtSampleQuality::Fast, 9, 3),
        (ImtSampleQuality::Normal, 16, 4),
        (ImtSampleQuality::Best, 25, 5),
    ];
    for (q, count, side) in all {
        assert_eq!(q.sample_count(), count);
        assert_eq!(q.grid_side(), side);
        assert_eq!(q.sample_offsets().len(), count);
    }
}

#[test]
fn default_options() {
    let o = ImtRasterOpts::default();
    assert_eq!(o.fill_quality, ImtFillQuality::Normal);
    assert_eq!(o.sample_quality, ImtSampleQuality::Normal);
    assert!(o.align_whole_pixels);
    assert!(!o.cpu_rasterization);
    assert!(o.raster_to_image);
    assert_eq!(o.raster_image_format, Format::R8G8B8A8_UNORM);
    assert_eq!(o.ray_count(), 5);
    assert_eq!(o.sample_count(), 16);
}

#[test]
fn constructors_set_the_rasterizer() {
    let cpu = ImtRaster::<u8>::new_cpu(ImtRasterOpts::default()).unwrap();
    assert!(cpu.opts().cpu_rasterization);
    assert_eq!(cpu.sample_count(), 16);
    assert_eq!(cpu.ray_count(), 5);
    let opts = ImtRasterOpts {
        cpu_rasterization: true,
        fill_quality: ImtFillQuality::Best,
        sample_quality: ImtSampleQuality::Fastest,
        ..ImtRasterOpts::default()
    };
    let gpu = ImtRaster::<u8>::new_gpu(opts).unwrap();
    assert!(!gpu.opts().cpu_rasterization);
    assert_eq!(gpu.sample_count(), 1);
    assert_eq!(gpu.ray_count(), 13);
}

#[test]
fn samples_lie_on_a_grid_inside_the_pixel() {
    assert_eq!(ImtSampleQuality::Fastest.sample_offsets(), vec![(0, 0)]);
    assert_eq!(
        ImtSampleQuality::Faster.sample_offsets(),
        vec![(-1, -1), (-1, 1), (1, -1), (1, 1)]
    );
    let v = ImtSampleQuality::Normal.sample_offsets();
    // over five: -3/5, -1/5, 1/5, 3/5, column by column
    assert_eq!(v[0], (-3, -3));
    assert_eq!(v[1], (-3, -1));
    assert_eq!(v[4], (-1, -3));
    assert_eq!(v[15], (3, 3));
    for q in [ImtSampleQuality::Fast, ImtSampleQuality::Best] {
        let w = q.grid_side() as i32;
        for (i, (x, y)) in q.sample_offsets().into_iter().enumerate() {
            let (col, row) = (i as i32 / w + 1, i as i32 % w + 1);
            let fx = (col as f32 / (w as f32 + 1.0)) * 2.0 - 1.0;
            let fy = (row as f32 / (w as f32 + 1.0)) * 2.0 - 1.0;
            assert!((x as f32 / (w + 1) as f32 - fx).abs() < 1e-6);
            assert!((y as f32 / (w + 1) as f32 - fy).abs() < 1e-6);
        }
    }
}

#[test]
fn sample_is_filled_by_half_of_its_rays() {
    assert!(!ImtFillQuality::Fast.sample_filled(0));
    assert!(!ImtFillQuality::Fast.sample_filled(1));
    assert!(ImtFillQuality::Fast.sample_filled(2));
    assert!(ImtFillQuality::Fast.sample_filled(3));
    assert!(!ImtFillQuality::Normal.sample_filled(2));
    assert!(ImtFillQuality::Normal.sample_filled(3));
    assert!(!ImtFillQuality::Best.sample_filled(6));
    assert!(ImtFillQuality::Best.sample_filled(7));
    assert!(ImtFillQuality::Best.sample_filled(usize::MAX));
}

#[test]
fn ray_is_inside_on_odd_crossings() {
    assert!(!ray_inside(0));
    assert!(ray_inside(1));
    assert!(!ray_inside(2));
    assert!(ray_inside(usize::MAX));
}

#[test]
fn subpixels_are_sampled_at_odd_sixths() {
    assert_eq!(subpixel_offset(0), 1);
    assert_eq!(subpixel_offset(1), 3);
    assert_eq!(subpixel_offset(2), 5);
}

#[test]
fn supersampling_sides() {
    let all = [
        ImtSSAA::X1,
        ImtSSAA::X2,
        ImtSSAA::X3,
        ImtSSAA::X4,
        ImtSSAA::X5,
        ImtSSAA::X6,
        ImtSSAA::X7,
        ImtSSAA::X8,
    ];
    for (i, s) in all.into_iter().enumerate() {
        assert_eq!(s.as_uint(), i as u32 + 1);
    }
    assert_eq!(ImtSSAA::default(), ImtSSAA::X4);
}

#[test]
fn subpixel_layout_codes() {
    assert_eq!(ImtSubPixel::Off.as_uint(), 0);
    assert_eq!(ImtSubPixel::RGB.as_uint(), 1);
    assert_eq!(ImtSubPixel::VRGB.as_uint(), 2);
    assert_eq!(ImtSubPixel::BGR.as_uint(), 3);
    assert_eq!(ImtSubPixel::VBGR.as_uint(), 4);
    assert_eq!(ImtSubPixel::default(), ImtSubPixel::RGB);
}

#[test]
fn stencil_holds_the_samples_of_each_pixel() {
    let ops = |ssaa, subpixel| ImtRasterOps { ssaa, subpixel, bitmap_format: Format::R8_UNORM };
    assert_eq!(ops(ImtSSAA::X4, ImtSubPixel::Off).stencil_extent(10, 20), Some([40, 80]));
    assert_eq!(ops(ImtSSAA::X4, ImtSubPixel::RGB).stencil_extent(10, 20), Some([120, 80]));
    assert_eq!(ops(ImtSSAA::X4, ImtSubPixel::BGR).stencil_extent(10, 20), Some([120, 80]));
    assert_eq!(ops(ImtSSAA::X2, ImtSubPixel::VRGB).stencil_extent(10, 20), Some([20, 120]));
    assert_eq!(ops(ImtSSAA::X8, ImtSubPixel::VBGR).stencil_extent(1, 1), Some([8, 24]));
    assert_eq!(ops(ImtSSAA::X1, ImtSubPixel::Off).stencil_extent(u32::MAX, 0), Some([u32::MAX, 0]));
    assert_eq!(ops(ImtSSAA::X2, ImtSubPixel::Off).stencil_extent(u32::MAX, 0), None);
    assert_eq!(ops(ImtSSAA::X1, ImtSubPixel::VRGB).stencil_extent(1, u32::MAX / 3 + 1), None);
    assert_eq!(
        ops(ImtSSAA::X1, ImtSubPixel::VRGB).stencil_extent(1, u32::MAX / 3),
        Some([1, u32::MAX])
    );
}

#[test]
fn stencil_bitmap_covers_the_box() {
    let s = ImtScale::new(height(32.0), 2048);
    assert_eq!(
        stencil_metrics(&s, 0, 0, 1024, 1000, 1800),
        Some(ImtStencilMetrics { width: 16, height: 16, bearing_x: 0, bearing_y: 12 })
    );
    assert_eq!(
        stencil_metrics(&s, -100, -64, 1, 0, 1800),
        Some(ImtStencilMetrics { width: 2, height: 1, bearing_x: -2, bearing_y: 28 })
    );
    assert_eq!(stencil_metrics(&s, 5, 0, 5, 100, 1800), None);
    assert_eq!(stencil_metrics(&s, 5, 0, 4, 100, 1800), None);
    assert_eq!(stencil_metrics(&s, 0, 7, 100, 7, 1800), None);
    let huge = ImtScale::new(height(16777215.0), 1);
    assert_eq!(stencil_metrics(&huge, 0, 0, 1000, 1, 0), None);
}

#[test]
fn vertices_of_an_outline() {
    let p = ImtPoint { x: 0, y: 0 };
    assert_eq!(vertex_count(&vec![]), Some(0));
    let g = vec![ImtGeometry::Line([p, p]), ImtGeometry::Curve([p, p, p]), ImtGeometry::Line([p, p])];
    assert_eq!(vertex_count(&g), Some(12));
}

#[test]
fn batch_plan_is_sorted_and_names_first_places() {
    let h = height(12.0);
    let other = height(13.0);
    let mut raster = ImtRasterGpu::<u8, u8>::new(ImtRasterOps {
        ssaa: ImtSSAA::X4,
        subpixel: ImtSubPixel::RGB,
        bitmap_format: Format::R8G8B8A8_UNORM,
    })
    .unwrap();
    assert_eq!(raster.ops().bitmap_format, Format::R8G8B8A8_UNORM);
    assert_eq!(raster.ops().ssaa, ImtSSAA::X4);
    let batch = vec![40, 7, 40, 3, 7, 9, 3, 65535, 0];
    let plan = raster.plan(&batch, h);
    assert_eq!(plan.raster, vec![(0, 8), (3, 3), (7, 1), (9, 5), (40, 0), (65535, 7)]);
    assert_eq!(plan.upload, plan.raster);
    raster.set_vert_buf(7, Some(1));
    raster.set_vert_buf(9, None);
    raster.set_bitmap(3, h, 30);
    raster.set_bitmap(40, other, 31);
    let plan = raster.plan(&batch, h);
    assert_eq!(plan.raster, vec![(0, 8), (7, 1), (9, 5), (40, 0), (65535, 7)]);
    assert_eq!(plan.upload, vec![(0, 8), (40, 0), (65535, 7)]);
    let plan = raster.plan(&batch, other);
    assert_eq!(plan.raster, vec![(0, 8), (3, 3), (7, 1), (9, 5), (65535, 7)]);
    assert_eq!(plan.upload, vec![(0, 8), (3, 3), (65535, 7)]);
    assert_eq!(raster.plan(&vec![], h).raster, vec![]);
    assert_eq!(raster.vert_buf(7), Some(&Some(1)));
    assert_eq!(raster.vert_buf(9), Some(&None));
    assert_eq!(raster.vert_buf(3), None);
    assert_eq!(raster.bitmap(3, h), Some(&30));
    assert_eq!(raster.bitmap(3, other), None);
    assert_eq!(raster.bitmap(40, other), Some(&31));
}
