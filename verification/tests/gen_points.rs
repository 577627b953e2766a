use ph_curves::gen::points::build;

#[test]
fn linear_identity() {
    let pts = [[0, 0], [255, 255]];
    let fwd = build("test", &pts, 256);
    for (i, &v) in fwd.iter().enumerate() {
        assert_eq!(v, i as u32);
    }
}

#[test]
fn three_point_curve() {
    let pts = [[0, 0], [128, 255], [255, 128]];
    let fwd = build("test", &pts, 256);
    assert_eq!(fwd[0], 0);
    assert_eq!(fwd[128], 255);
    assert_eq!(fwd[255], 128);
}

#[test]
fn endpoints_are_exact() {
    let pts = [[0, 0], [9, 9]];
    let fwd = build("test", &pts, 10);
    assert_eq!(fwd[0], 0);
    assert_eq!(fwd[9], 9);
}

#[test]
fn interpolation_midpoint() {
    let pts = [[0, 0], [9, 100]];
    let fwd = build("test", &pts, 10);
    assert_eq!(fwd[4], 44);
}

#[test]
fn decreasing_segment() {
    let pts = [[0, 200], [255, 0]];
    let fwd = build("test", &pts, 256);
    assert_eq!(fwd[0], 200);
    assert_eq!(fwd[255], 0);
    assert!((fwd[128] as i32 - 100).abs() <= 1);
}

#[test]
fn interpolates_increasing_across_full_u16_range() {
    let pts = [[0, 0], [65535, 65535]];
    let fwd = build("test", &pts, 65536);
    assert_eq!(fwd[0], 0);
    assert_eq!(fwd[32768], 32768);
    assert_eq!(fwd[65535], 65535);
}

#[test]
fn interpolates_decreasing_across_full_u16_range() {
    let pts = [[0, 65535], [65535, 0]];
    let fwd = build("test", &pts, 65536);
    assert_eq!(fwd[0], 65535);
    assert_eq!(fwd[32768], 32767);
    assert_eq!(fwd[65535], 0);
}

#[test]
fn three_point_curve_knots_are_reproduced() {
    let pts = [[0, 10], [3, 40], [7, 0]];
    let fwd = build("test", &pts, 8);
    assert_eq!(fwd, vec![10, 20, 30, 40, 30, 20, 10, 0]);
}
