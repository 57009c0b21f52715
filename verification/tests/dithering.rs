use bmpdither::bmp::{Bmp, Pixel};
use bmpdither::dither::{
    atkinson_matrix_dither, bayer_4x4, bayer_8x8, burkes_matrix_dither, closest_color,
    closest_matrix_dither, diffuse_matrix_dither, dist2, false_floyd_matrix_dither,
    floyd_matrix_dither, gray_value, jjn_matrix_dither, matrix_dither, ordered_dither, px_add,
    px_div, px_scale, px_sub, quantize, sierra2_matrix_dither, sierra_lite_matrix_dither,
    sierra_matrix_dither, stucki_matrix_dither, GrayFormula, Kernel, Quantizer,
};

fn bw() -> Vec<Pixel> {
    vec![Pixel::black(), Pixel::white()]
}

fn grid_2x2(a: Pixel, b: Pixel, c: Pixel, d: Pixel) -> Bmp {
    let mut bmp = Bmp::new(2, 2);
    bmp.pixels[0][0] = a;
    bmp.pixels[1][0] = b;
    bmp.pixels[0][1] = c;
    bmp.pixels[1][1] = d;
    bmp
}

fn solid(w: u32, h: u32, p: Pixel) -> Bmp {
    let mut bmp = Bmp::new(w, h);
    for x in 0..w as usize {
        for y in 0..h as usize {
            bmp.pixels[x][y] = p;
        }
    }
    bmp
}

#[test]
fn dist2_exact() {
    assert_eq!(dist2(&(0, 0, 0), &(1, 2, 3)), 14);
    assert_eq!(dist2(&(10, 10, 10), &(0, 0, 0)), 300);
    assert_eq!(dist2(&(-5, 0, 5), &(5, 0, -5)), 200);
}

#[test]
fn triple_helpers_wrap_and_truncate() {
    assert_eq!(px_add(&(i32::MAX, 1, -1), &(1, 2, -2)), (i32::MIN, 3, -3));
    assert_eq!(px_sub(&(i32::MIN, 0, 5), &(1, 2, 3)), (i32::MAX, -2, 2));
    assert_eq!(px_scale(&(3, -4, 0), 5), (15, -20, 0));
    // truncation toward zero, also for negative values
    assert_eq!(px_div(&(-7, 7, -8), 2), (-3, 3, -4));
    assert_eq!(px_div(&(15, -15, 1), 16), (0, 0, 0));
}

#[test]
fn closest_color_picks_nearest() {
    let palette = vec![Pixel::black(), Pixel::white(), Pixel::red()];
    assert_eq!(closest_color(&(10, 10, 10), &palette), Pixel::black());
    assert_eq!(closest_color(&(250, 250, 250), &palette), Pixel::white());
    assert_eq!(closest_color(&(200, 30, 30), &palette), Pixel::red());
    // pre-quantization values may lie outside the channel range
    assert_eq!(closest_color(&(-500, -500, -500), &palette), Pixel::black());
    assert_eq!(closest_color(&(400, 400, 400), &palette), Pixel::white());
}

#[test]
fn closest_color_ties_break_to_first() {
    // two entries at the same distance from the probe: the earlier one wins
    let palette = vec![Pixel { r: 10, g: 0, b: 0 }, Pixel { r: 30, g: 0, b: 0 }];
    assert_eq!(closest_color(&(20, 0, 0), &palette), Pixel { r: 10, g: 0, b: 0 });
    let palette = vec![Pixel { r: 30, g: 0, b: 0 }, Pixel { r: 10, g: 0, b: 0 }];
    assert_eq!(closest_color(&(20, 0, 0), &palette), Pixel { r: 30, g: 0, b: 0 });
}

#[test]
fn gray_formulas_exact() {
    assert_eq!(gray_value(&GrayFormula::Average, &(100, 200, 30)), 110);
    assert_eq!(gray_value(&GrayFormula::Luminance, &(100, 200, 30)), 150);
    assert_eq!(gray_value(&GrayFormula::Lightness, &(100, 200, 30)), 115);
    // truncation toward zero on negative adjusted colors
    assert_eq!(gray_value(&GrayFormula::Average, &(-10, -10, -11)), -10);
}

#[test]
fn quantize_gray_threshold() {
    let q = Quantizer::GrayThreshold(GrayFormula::Average, 128);
    assert_eq!(quantize(&q, &(100, 100, 100)), Pixel::black());
    assert_eq!(quantize(&q, &(130, 130, 130)), Pixel::white());
    assert_eq!(quantize(&q, &(127, 128, 129)), Pixel::white());
}

#[test]
fn floyd_2x2_scenario() {
    // (10,10,10) quantizes to black, (250,250,250) to white; with divisor 16
    // the per-pixel errors 10 and -5 truncate to zero, so row 1 repeats the
    // pattern.
    let mut bmp = grid_2x2(
        Pixel { r: 10, g: 10, b: 10 },
        Pixel { r: 250, g: 250, b: 250 },
        Pixel { r: 10, g: 10, b: 10 },
        Pixel { r: 250, g: 250, b: 250 },
    );
    floyd_matrix_dither(&mut bmp, &bw());
    assert_eq!(bmp.pixels[0][0], Pixel::black());
    assert_eq!(bmp.pixels[1][0], Pixel::white());
    assert_eq!(bmp.pixels[0][1], Pixel::black());
    assert_eq!(bmp.pixels[1][1], Pixel::white());
}

#[test]
fn floyd_propagates_error_rightward() {
    // both pixels are mid-gray 100; the first quantizes to black with error
    // 100, scaled to 100/16 = 6 per channel, pushed right with weight 7:
    // the second pixel is adjusted to 142 and flips to white.
    let mut bmp = solid(2, 1, Pixel { r: 100, g: 100, b: 100 });
    floyd_matrix_dither(&mut bmp, &bw());
    assert_eq!(bmp.pixels[0][0], Pixel::black());
    assert_eq!(bmp.pixels[1][0], Pixel::white());
}

#[test]
fn floyd_propagates_error_downward() {
    // a 1 x 2 column of mid-gray 100: the first pixel's scaled error 6 is
    // pushed to the row below with weight 5 (same column), adjusting the
    // second pixel to 100 + 30 = 130, which is nearer to white.
    let mut bmp = solid(1, 2, Pixel { r: 100, g: 100, b: 100 });
    floyd_matrix_dither(&mut bmp, &bw());
    assert_eq!(bmp.pixels[0][0], Pixel::black());
    assert_eq!(bmp.pixels[0][1], Pixel::white());
}

#[test]
fn no_diffusion_equals_direct_quantization() {
    let palette = vec![Pixel::black(), Pixel::white(), Pixel::red(), Pixel::blue()];
    let mut bmp = Bmp::new(3, 3);
    let vals = [10u8, 60, 120, 180, 240, 30, 90, 150, 210];
    for x in 0..3usize {
        for y in 0..3usize {
            let v = vals[x * 3 + y];
            bmp.pixels[x][y] = Pixel { r: v, g: v.wrapping_mul(2), b: v / 2 };
        }
    }
    let reference = bmp.pixels.clone();
    closest_matrix_dither(&mut bmp, &palette);
    for x in 0..3usize {
        for y in 0..3usize {
            let expect = closest_color(&reference[x][y].as_tuple(), &palette);
            assert_eq!(bmp.pixels[x][y], expect);
        }
    }
}

#[test]
fn one_pixel_every_kernel() {
    let palette = vec![Pixel::black(), Pixel::white(), Pixel::red()];
    let engines: Vec<fn(&mut Bmp, &Vec<Pixel>)> = vec![
        closest_matrix_dither,
        diffuse_matrix_dither,
        floyd_matrix_dither,
        false_floyd_matrix_dither,
        jjn_matrix_dither,
        stucki_matrix_dither,
        atkinson_matrix_dither,
        burkes_matrix_dither,
        sierra_matrix_dither,
        sierra2_matrix_dither,
        sierra_lite_matrix_dither,
    ];
    for engine in engines {
        let mut bmp = solid(1, 1, Pixel { r: 200, g: 40, b: 40 });
        engine(&mut bmp, &palette);
        assert_eq!(bmp.pixels[0][0], Pixel::red());
    }
}

#[test]
fn one_pixel_every_matrix() {
    for engine in [bayer_4x4, bayer_8x8] {
        let mut bmp = solid(1, 1, Pixel { r: 10, g: 10, b: 10 });
        engine(&mut bmp, &bw());
        // 10 scaled by 17/255 (or 65/255) and rescaled stays far below white
        assert_eq!(bmp.pixels[0][0], Pixel::black());
    }
}

#[test]
fn every_kernel_output_stays_in_palette() {
    let palette = vec![Pixel::black(), Pixel::white(), Pixel::red(), Pixel::green()];
    let engines: Vec<fn(&mut Bmp, &Vec<Pixel>)> = vec![
        closest_matrix_dither,
        diffuse_matrix_dither,
        floyd_matrix_dither,
        false_floyd_matrix_dither,
        jjn_matrix_dither,
        stucki_matrix_dither,
        atkinson_matrix_dither,
        burkes_matrix_dither,
        sierra_matrix_dither,
        sierra2_matrix_dither,
        sierra_lite_matrix_dither,
        bayer_4x4,
        bayer_8x8,
    ];
    for engine in engines {
        let mut bmp = Bmp::new(5, 4);
        for x in 0..5usize {
            for y in 0..4usize {
                bmp.pixels[x][y] = Pixel {
                    r: (x * 50 + y * 13) as u8,
                    g: (255 - x * 31) as u8,
                    b: (x * y * 17) as u8,
                };
            }
        }
        engine(&mut bmp, &palette);
        for x in 0..5usize {
            for y in 0..4usize {
                assert!(palette.contains(&bmp.pixels[x][y]));
            }
        }
    }
}

#[test]
fn bayer_4x4_solid_is_periodic() {
    let mut bmp = solid(8, 8, Pixel { r: 128, g: 128, b: 128 });
    bayer_4x4(&mut bmp, &bw());
    for x in 0..4usize {
        for y in 0..8usize {
            assert_eq!(bmp.pixels[x][y], bmp.pixels[x + 4][y]);
        }
    }
    for x in 0..8usize {
        for y in 0..4usize {
            assert_eq!(bmp.pixels[x][y], bmp.pixels[x][y + 4]);
        }
    }
}

#[test]
fn bayer_4x4_exact_cells() {
    // mid-gray 128 scales to 128 * 17 / 255 = 8, then multiplies by the
    // matrix cell. Cell (0, 0) holds 1, giving 8: black. Cell (3, 0) holds
    // 16, giving 128, which is strictly nearer to 255 than to 0: white.
    let mut bmp = solid(4, 4, Pixel { r: 128, g: 128, b: 128 });
    bayer_4x4(&mut bmp, &bw());
    assert_eq!(bmp.pixels[0][0], Pixel::black());
    assert_eq!(bmp.pixels[3][0], Pixel::white());
}

#[test]
fn gray_threshold_diffusion() {
    // grayscale threshold mode with the no-diffusion kernel: a plain
    // per-pixel threshold on the average
    let k = Kernel {
        right1: 0,
        right2: 0,
        below_l2: 0,
        below_l1: 0,
        below_c: 0,
        below_r1: 0,
        below_r2: 0,
        below2_l2: 0,
        below2_l1: 0,
        below2_c: 0,
        below2_r1: 0,
        below2_r2: 0,
        divisor: 1,
    };
    let mut bmp = grid_2x2(
        Pixel { r: 100, g: 200, b: 30 },
        Pixel { r: 200, g: 200, b: 200 },
        Pixel { r: 0, g: 0, b: 0 },
        Pixel { r: 128, g: 128, b: 128 },
    );
    let q = Quantizer::GrayThreshold(GrayFormula::Average, 128);
    matrix_dither(&mut bmp, &k, &q);
    assert_eq!(bmp.pixels[0][0], Pixel::black()); // average 110
    assert_eq!(bmp.pixels[1][0], Pixel::white()); // average 200
    assert_eq!(bmp.pixels[0][1], Pixel::black()); // average 0
    assert_eq!(bmp.pixels[1][1], Pixel::white()); // average 128
}

#[test]
fn gray_threshold_ordered() {
    let mut matrix = Vec::new();
    matrix.push(vec![1]);
    let mut bmp = solid(1, 1, Pixel { r: 200, g: 200, b: 200 });
    let q = Quantizer::GrayThreshold(GrayFormula::Average, 128);
    // factor is 1 * 1 + 1 = 2: 200 * 2 / 255 = 1, times cell 1 -> average 1
    ordered_dither(&mut bmp, &matrix, &q);
    assert_eq!(bmp.pixels[0][0], Pixel::black());
}

#[test]
fn dithering_keeps_dimensions() {
    let mut bmp = solid(7, 3, Pixel { r: 77, g: 77, b: 77 });
    jjn_matrix_dither(&mut bmp, &bw());
    assert_eq!(bmp.width(), 7);
    assert_eq!(bmp.height(), 3);
    assert_eq!(bmp.pixels.len(), 7);
    for col in &bmp.pixels {
        assert_eq!(col.len(), 3);
    }
}
