use planet_surface::sampler::{sample_displacement, sample_height};

/// A `w` x `h` RGBA8 map whose red channel at pixel `p` is `p * 10`.
fn ramp(w: usize, h: usize) -> Vec<u8> {
    let mut d = Vec::new();
    for p in 0..w * h {
        d.push((p * 10) as u8);
        d.push(1);
        d.push(2);
        d.push(3);
    }
    d
}

#[test]
fn sample_reads_red_channel() {
    let d = ramp(3, 2);
    assert_eq!(sample_height(&d, 3, 2, 0, 0), 0);
    assert_eq!(sample_height(&d, 3, 2, 2, 0), 20);
    assert_eq!(sample_height(&d, 3, 2, 1, 1), 40);
}

#[test]
fn sample_wraps_columns() {
    let d = ramp(3, 2);
    for x in -4i64..4 {
        for y in -1i64..3 {
            assert_eq!(sample_height(&d, 3, 2, x, y), sample_height(&d, 3, 2, x + 3, y));
        }
    }
    assert_eq!(sample_height(&d, 3, 2, -1, 0), 20);
    assert_eq!(sample_height(&d, 3, 2, 3, 1), 30);
}

#[test]
fn sample_clamps_rows() {
    let d = ramp(3, 2);
    for x in 0i64..3 {
        assert_eq!(sample_height(&d, 3, 2, x, -1), sample_height(&d, 3, 2, x, 0));
    }
    assert_eq!(sample_height(&d, 3, 2, 1, 7), 40);
}

#[test]
fn sample_short_buffer_gives_zero() {
    let d = vec![200u8, 0, 0, 0];
    assert_eq!(sample_height(&d, 2, 2, 0, 0), 200);
    assert_eq!(sample_height(&d, 2, 2, 1, 0), 0);
    assert_eq!(sample_height(&d, 2, 2, 0, 1), 0);
}

#[test]
fn displacement_reads_nearest_texel() {
    let d = ramp(4, 4);
    assert_eq!(sample_displacement(Some(&d), 4, 4, 3, 2), 110);
    assert_eq!(sample_displacement(Some(&d), 4, 4, 0, 0), 0);
}

#[test]
fn displacement_without_data_is_zero() {
    assert_eq!(sample_displacement(None, 4, 4, 1, 1), 0);
    let short = vec![9u8, 9, 9];
    assert_eq!(sample_displacement(Some(&short), 4, 4, 0, 0), 0);
}
