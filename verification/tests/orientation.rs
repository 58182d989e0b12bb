use rawview::frame::RgbImage;
use rawview::orient::apply_orientation;

fn sample_image(w: usize, h: usize) -> RgbImage {
    let mut data = Vec::new();
    for i in 0..w * h * 3 {
        data.push((i % 251) as u8);
    }
    RgbImage { width: w, height: h, data }
}

#[test]
fn test_apply_orientation() {
    let img = RgbImage { width: 10, height: 20, data: vec![0u8; 10 * 20 * 3] };

    // Case 1: Normal (no change)
    let res = apply_orientation(img.clone(), 1);
    assert_eq!((res.width, res.height), (10, 20));

    // Case 6: Rotate 90 CW
    let res = apply_orientation(img.clone(), 6);
    assert_eq!((res.width, res.height), (20, 10));

    // Case 8: Rotate 270 CW (90 CCW)
    let res = apply_orientation(img.clone(), 8);
    assert_eq!((res.width, res.height), (20, 10));

    // Case 3: Rotate 180
    let res = apply_orientation(img.clone(), 3);
    assert_eq!((res.width, res.height), (10, 20));
}

#[test]
fn orientation_one_is_bitwise_identity() {
    let img = sample_image(7, 5);
    let res = apply_orientation(img.clone(), 1);
    assert_eq!(res.width, img.width);
    assert_eq!(res.height, img.height);
    assert_eq!(res.data, img.data);
    // values outside the table act as 1 too
    let res = apply_orientation(img.clone(), 0);
    assert_eq!(res.data, img.data);
    let res = apply_orientation(img.clone(), 9);
    assert_eq!(res.data, img.data);
}

#[test]
fn orientation_three_twice_is_identity() {
    let img = sample_image(6, 4);
    let once = apply_orientation(img.clone(), 3);
    let twice = apply_orientation(once, 3);
    assert_eq!(twice.data, img.data);
    assert_eq!((twice.width, twice.height), (6, 4));
}

#[test]
fn orientation_six_four_times_is_identity() {
    let img = sample_image(6, 4);
    let mut cur = img.clone();
    for _ in 0..4 {
        cur = apply_orientation(cur, 6);
    }
    assert_eq!(cur.data, img.data);
    assert_eq!((cur.width, cur.height), (6, 4));
}

#[test]
fn flips_twice_are_identity() {
    let img = sample_image(9, 3);
    let h2 = apply_orientation(apply_orientation(img.clone(), 2), 2);
    assert_eq!(h2.data, img.data);
    let v2 = apply_orientation(apply_orientation(img.clone(), 4), 4);
    assert_eq!(v2.data, img.data);
}

#[test]
fn every_orientation_has_an_inverse() {
    let inverse = [0u32, 1, 2, 3, 4, 5, 8, 7, 6];
    let img = sample_image(8, 5);
    for k in 1..=8u32 {
        let fwd = apply_orientation(img.clone(), k);
        let back = apply_orientation(fwd, inverse[k as usize]);
        assert_eq!((back.width, back.height), (8, 5), "orientation {}", k);
        assert_eq!(back.data, img.data, "orientation {}", k);
    }
}

#[test]
fn orientation_six_round_trip() {
    let img = sample_image(10, 20);
    let rotated = apply_orientation(img.clone(), 6);
    assert_eq!((rotated.width, rotated.height), (20, 10));
    let restored = apply_orientation(rotated, 8);
    assert_eq!((restored.width, restored.height), (10, 20));
    assert_eq!(restored.data, img.data);
}

#[test]
fn orientation_moves_a_marked_pixel() {
    // a 2x1 image: left pixel red, right pixel green
    let img = RgbImage { width: 2, height: 1, data: vec![255, 0, 0, 0, 255, 0] };
    let flipped = apply_orientation(img, 2);
    assert_eq!(flipped.data, vec![0, 255, 0, 255, 0, 0]);
}
