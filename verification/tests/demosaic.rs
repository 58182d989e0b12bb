use rawview::demosaic::{demosaic_bilinear, demosaic_with_matrix, identity_color_matrix};
use rawview::frame::{MosaicFrame, WbGain};

fn frame(
    width: usize,
    height: usize,
    samples: Vec<u16>,
    pattern: &str,
    black: u16,
    white: u16,
) -> MosaicFrame {
    MosaicFrame {
        width,
        height,
        samples,
        pattern: pattern.to_string(),
        black_levels: vec![black; 4],
        white_levels: vec![white; 4],
        wb: vec![WbGain { num: 1, den: 1 }; 4],
        make: String::new(),
        model: String::new(),
    }
}

#[test]
fn test_color_rendering() {
    // Simulate a 2x2 RGGB pattern with pure Blue
    // R G
    // G B
    // Let's make it 4x4 to avoid boundary issues with the demosaic loop (it skips 1 pixel border)
    let width = 4;
    let height = 4;
    let mut data = vec![0u16; width * height];

    // We want pure blue, so only B pixels have value.
    // B pixels are at odd row, odd col.
    for y in 0..height {
        for x in 0..width {
            if y % 2 == 1 && x % 2 == 1 {
                data[y * width + x] = 1000; // Blue signal
            } else {
                data[y * width + x] = 0; // No signal
            }
        }
    }

    let f = frame(width, height, data, "RGGB", 0, 1000);
    let rgb = demosaic_bilinear(&f);

    // Check center pixel (1, 1) - should be Blue
    let idx = (1 * 4 + 1) * 3;
    let r = rgb[idx];
    let g = rgb[idx + 1];
    let b = rgb[idx + 2];

    println!("RGB at (1,1): {}, {}, {}", r, g, b);

    assert_eq!(b, 255);
    assert_eq!(r, 0);
    assert_eq!(g, 0);
}

#[test]
fn pure_blue_rggb_identity_matrix() {
    // samples 1000 at the four blue sites of a 4x4 RGGB mosaic, 0 elsewhere
    let width = 4;
    let height = 4;
    let mut data = vec![0u16; width * height];
    for y in 0..height {
        for x in 0..width {
            if y % 2 == 1 && x % 2 == 1 {
                data[y * width + x] = 1000;
            }
        }
    }
    let f = frame(width, height, data, "RGGB", 0, 1000);
    let ident = identity_color_matrix();
    let rgb = demosaic_with_matrix(&f, &ident);
    let idx = (1 * 4 + 1) * 3;
    assert_eq!((rgb[idx], rgb[idx + 1], rgb[idx + 2]), (0, 0, 255));
}

#[test]
fn unknown_pattern_uniform_is_gray() {
    // 5x5, unknown pattern name, all samples 500, bl=0, wl=1000:
    // every interior pixel is 186 on all three channels
    let f = frame(5, 5, vec![500u16; 25], "GBRG", 0, 1000);
    let rgb = demosaic_bilinear(&f);
    for y in 1..4usize {
        for x in 1..4usize {
            let idx = (y * 5 + x) * 3;
            assert_eq!(
                (rgb[idx], rgb[idx + 1], rgb[idx + 2]),
                (186, 186, 186),
                "pixel ({}, {})",
                x,
                y
            );
        }
    }
}

#[test]
fn bggr_uniform_mid_gray() {
    // 6x6 BGGR, all samples 500, neutral calibration, identity matrix:
    // every interior pixel is (186, 186, 186)
    let f = frame(6, 6, vec![500u16; 36], "BGGR", 0, 1000);
    let ident = identity_color_matrix();
    let rgb = demosaic_with_matrix(&f, &ident);
    for y in 1..5usize {
        for x in 1..5usize {
            let idx = (y * 6 + x) * 3;
            assert_eq!(
                (rgb[idx], rgb[idx + 1], rgb[idx + 2]),
                (186, 186, 186),
                "pixel ({}, {})",
                x,
                y
            );
        }
    }
}

#[test]
fn uniform_white_level_saturates() {
    // every site reads its channel's white level: all interior channels 255
    let f = frame(4, 4, vec![800u16; 16], "RGGB", 0, 800);
    let ident = identity_color_matrix();
    let rgb = demosaic_with_matrix(&f, &ident);
    for y in 1..3usize {
        for x in 1..3usize {
            let idx = (y * 4 + x) * 3;
            assert_eq!((rgb[idx], rgb[idx + 1], rgb[idx + 2]), (255, 255, 255));
        }
    }
}

#[test]
fn varied_mosaic_with_gains_matches_expected_bytes() {
    // a 4x4 RGGB mosaic with varied samples, black level 50, white level
    // 1000, gains (3/2, 1, 2), default matrix; the expected bytes were
    // worked out by hand from the documented pipeline
    let samples: Vec<u16> = vec![
        120, 340, 560, 780, 900, 1000, 230, 450, 670, 890, 110, 330, 550, 770, 990, 210,
    ];
    let f = MosaicFrame {
        width: 4,
        height: 4,
        samples,
        pattern: String::from("RGGB"),
        black_levels: vec![50; 4],
        white_levels: vec![1000; 4],
        wb: vec![
            WbGain { num: 3, den: 2 },
            WbGain { num: 1, den: 1 },
            WbGain { num: 2, den: 1 },
            WbGain { num: 1, den: 1 },
        ],
        make: String::new(),
        model: String::new(),
    };
    let rgb = demosaic_bilinear(&f);
    let expected: Vec<u8> = vec![
        0, 0, 0, 0, 0, 0, 0, 0, 0, 0, 0, 0, 0, 0, 0, 47, 146, 255, 132, 0, 255, 0, 0, 0, 0, 0, 0,
        74, 227, 255, 0, 197, 255, 0, 0, 0, 0, 0, 0, 0, 0, 0, 0, 0, 0, 0, 0, 0,
    ];
    assert_eq!(rgb, expected);
}

#[test]
fn deep_shadow_values_follow_the_gamma_formula_exactly() {
    // a uniform mosaic of sample 1 with white level 512 sits at the
    // exact linear value 1/512; floor(255 * (1/512)^(5/11)) = 14 because
    // 14^11 * 512^5 <= 255^11 < 15^11 * 512^5
    let f = frame(4, 4, vec![1u16; 16], "RGGB", 0, 512);
    let ident = identity_color_matrix();
    let rgb = demosaic_with_matrix(&f, &ident);
    let idx = (1 * 4 + 1) * 3;
    assert_eq!((rgb[idx], rgb[idx + 1], rgb[idx + 2]), (14, 14, 14));
}

#[test]
fn two_by_two_mosaic_is_all_zero() {
    let f = frame(2, 2, vec![900u16; 4], "RGGB", 0, 1000);
    let rgb = demosaic_bilinear(&f);
    assert_eq!(rgb, vec![0u8; 12]);
}

#[test]
fn border_ring_is_zero() {
    let w = 5usize;
    let h = 4usize;
    let f = frame(w, h, vec![700u16; 20], "RGGB", 0, 1000);
    let rgb = demosaic_bilinear(&f);
    assert_eq!(rgb.len(), w * h * 3);
    for y in 0..h {
        for x in 0..w {
            if x == 0 || x == w - 1 || y == 0 || y == h - 1 {
                let idx = (y * w + x) * 3;
                assert_eq!((rgb[idx], rgb[idx + 1], rgb[idx + 2]), (0, 0, 0));
            }
        }
    }
}

#[test]
fn green_at_red_site_averages_orthogonal_neighbors() {
    // at the red site (2,2) of a 5x5 RGGB mosaic, green is the average of
    // the four orthogonal green samples: (100+200+300+400)/4 = 250, so
    // v = 0.25 and the gamma byte is 135; red and blue stay 0
    let mut samples = vec![0u16; 25];
    samples[2 * 5 + 1] = 100;
    samples[2 * 5 + 3] = 200;
    samples[1 * 5 + 2] = 300;
    samples[3 * 5 + 2] = 400;
    let f = frame(5, 5, samples, "RGGB", 0, 1000);
    let ident = identity_color_matrix();
    let rgb = demosaic_with_matrix(&f, &ident);
    let idx = (2 * 5 + 2) * 3;
    assert_eq!((rgb[idx], rgb[idx + 1], rgb[idx + 2]), (0, 135, 0));
}

#[test]
fn white_balance_gain_scales_a_channel() {
    // a gain of 2 on red doubles the red linear value before the matrix
    let mut f = frame(4, 4, vec![250u16; 16], "RGGB", 0, 1000);
    let ident = identity_color_matrix();
    let base = demosaic_with_matrix(&f, &ident);
    f.wb[0] = WbGain { num: 2, den: 1 };
    let gained = demosaic_with_matrix(&f, &ident);
    let idx = (1 * 4 + 1) * 3;
    // v = 0.25 -> gamma byte 135; v = 0.5 -> 186
    assert_eq!(base[idx], 135);
    assert_eq!(gained[idx], 186);
    assert_eq!(base[idx + 1], gained[idx + 1]);
}
