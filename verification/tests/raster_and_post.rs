use tunnelviz::framebuf::FrameBuf;
use tunnelviz::post::darken_factor;
use tunnelviz::post::gamma23;
use tunnelviz::post::ramp_step;
use tunnelviz::trig::cos_milli;
use tunnelviz::trig::sin_milli;
use tunnelviz::tunnel::pow_nine_fifths;

fn px(fb: &FrameBuf, x: usize, y: usize) -> [u8; 4] {
    let i = (y * fb.width + x) * 4;
    [fb.data[i], fb.data[i + 1], fb.data[i + 2], fb.data[i + 3]]
}

#[test]
fn clear_sets_opaque_black() {
    let mut fb = FrameBuf::new_sized(4, 3);
    fb.clear();
    for k in 0..fb.data.len() {
        if k % 4 == 3 {
            assert_eq!(fb.data[k], 255);
        } else {
            assert_eq!(fb.data[k], 0);
        }
    }
}

#[test]
fn line_paints_both_endpoints_and_diagonal() {
    let mut fb = FrameBuf::new_sized(10, 10);
    fb.clear();
    fb.draw_line(0, 0, 9, 9, 10, 20, 30);
    assert_eq!(px(&fb, 0, 0), [10, 20, 30, 255]);
    assert_eq!(px(&fb, 5, 5), [10, 20, 30, 255]);
    assert_eq!(px(&fb, 9, 9), [10, 20, 30, 255]);
    // a pixel off the diagonal is untouched
    assert_eq!(px(&fb, 9, 0), [0, 0, 0, 255]);
}

#[test]
fn fully_offscreen_line_is_rejected() {
    let mut fb = FrameBuf::new_sized(8, 8);
    fb.clear();
    fb.draw_line(-20, 1, -3, 7, 200, 200, 200);
    fb.draw_line(2, 50, 7, 90, 200, 200, 200);
    for k in 0..fb.data.len() {
        if k % 4 != 3 {
            assert_eq!(fb.data[k], 0);
        }
    }
}

#[test]
fn partially_offscreen_line_clips_per_pixel() {
    let mut fb = FrameBuf::new_sized(5, 5);
    fb.clear();
    fb.draw_line(-3, 2, 4, 2, 9, 9, 9);
    for x in 0..5 {
        assert_eq!(px(&fb, x, 2), [9, 9, 9, 255]);
    }
}

#[test]
fn thick_vertical_line_spans_columns() {
    let mut fb = FrameBuf::new_sized(9, 9);
    fb.clear();
    fb.draw_thick_line(4, 1, 4, 7, 50, 60, 70, 3);
    assert_eq!(px(&fb, 3, 4), [50, 60, 70, 255]);
    assert_eq!(px(&fb, 4, 4), [50, 60, 70, 255]);
    assert_eq!(px(&fb, 5, 4), [50, 60, 70, 255]);
    assert_eq!(px(&fb, 6, 4), [0, 0, 0, 255]);
}

#[test]
fn soft_invert_takes_distance_to_value() {
    let mut fb = FrameBuf::new_sized(2, 1);
    fb.clear();
    fb.put_pixel(0, 0, 30, 120, 250);
    fb.soft_invert(100);
    assert_eq!(px(&fb, 0, 0), [70, 20, 150, 255]);
    // a black pixel inverts to the ramp value itself
    assert_eq!(px(&fb, 1, 0), [100, 100, 100, 255]);
}

#[test]
fn scanlines_dim_every_third_row() {
    let mut fb = FrameBuf::new_sized(3, 6);
    for y in 0..6 {
        for x in 0..3 {
            fb.put_pixel(x, y, 100, 100, 100);
        }
    }
    fb.scanlines();
    for y in 0..6 {
        let want = if y % 3 == 0 { 88 } else { 100 };
        assert_eq!(px(&fb, 1, y)[0], want, "row {}", y);
    }
}

#[test]
fn temporal_smoothing_blends_and_stores() {
    let mut fb = FrameBuf::new_sized(2, 2);
    let mut prev = FrameBuf::new_sized(2, 2);
    for y in 0..2 {
        for x in 0..2 {
            fb.put_pixel(x, y, 200, 200, 200);
            prev.put_pixel(x, y, 0, 0, 0);
        }
    }
    fb.temporal_smooth(&mut prev);
    // 200 * 55 / 100 = 110
    assert_eq!(px(&fb, 0, 0), [110, 110, 110, 255]);
    assert_eq!(px(&prev, 1, 1), [110, 110, 110, 255]);
}

#[test]
fn darken_scales_channels_by_quietness() {
    assert_eq!(darken_factor(0), 850);
    assert_eq!(darken_factor(1000), 1000);
    assert_eq!(darken_factor(500), 850 + (150 * 575) / 1000);
    let mut fb = FrameBuf::new_sized(1, 1);
    fb.put_pixel(0, 0, 200, 100, 0);
    fb.scale_channels(850);
    assert_eq!(px(&fb, 0, 0), [170, 85, 0, 255]);
}

#[test]
fn ramp_step_edges() {
    assert_eq!(ramp_step(0, true), 5);
    assert_eq!(ramp_step(250, true), 255);
    assert_eq!(ramp_step(252, true), 255);
    assert_eq!(ramp_step(255, true), 255);
    assert_eq!(ramp_step(5, false), 0);
    assert_eq!(ramp_step(3, false), 0);
    assert_eq!(ramp_step(0, false), 0);
}

#[test]
fn gamma_reshape_values() {
    assert_eq!(gamma23(0), 0);
    assert_eq!(gamma23(255), 255);
    // cube root of 255 * 64^2 = 1044480 lies between 101^3 and 102^3
    assert_eq!(gamma23(64), 101);
    assert_eq!(gamma23(1), 6);
}

#[test]
fn integer_trig_known_points() {
    assert_eq!(sin_milli(0), 0);
    assert_eq!(sin_milli(1571), 1000);
    assert_eq!(sin_milli(3142), 0);
    assert_eq!(sin_milli(4713), -1000);
    assert_eq!(cos_milli(0), 1000);
    assert_eq!(cos_milli(3142), -1000);
    for t in (0..6284).step_by(37) {
        let s = sin_milli(t);
        let c = cos_milli(t);
        assert!(-1000 <= s && s <= 1000);
        assert!(-1000 <= c && c <= 1000);
    }
}

#[test]
fn nine_fifths_power_endpoints() {
    assert_eq!(pow_nine_fifths(0), 0);
    assert_eq!(pow_nine_fifths(1000), 1000);
    let half = pow_nine_fifths(500);
    // 0.5^1.8 is about 0.287
    assert!(280 <= half && half <= 295, "got {}", half);
}

#[test]
fn line_stays_inside_its_bounding_box() {
    let mut fb = FrameBuf::new_sized(8, 8);
    fb.clear();
    fb.draw_line(2, 1, 6, 3, 40, 50, 60);
    for y in 0..8usize {
        for x in 0..8usize {
            if x < 2 || x > 6 || y < 1 || y > 3 {
                assert_eq!(px(&fb, x, y), [0, 0, 0, 255], "touched ({}, {})", x, y);
            }
        }
    }
    assert_eq!(px(&fb, 2, 1), [40, 50, 60, 255]);
    assert_eq!(px(&fb, 6, 3), [40, 50, 60, 255]);
}

#[test]
fn thick_diagonal_paints_base_line() {
    let mut fb = FrameBuf::new_sized(12, 12);
    fb.clear();
    fb.draw_thick_line(2, 2, 9, 6, 80, 90, 100, 3);
    // the o = 0 pass draws the exact center line, so its endpoints hold
    assert_eq!(px(&fb, 2, 2), [80, 90, 100, 255]);
    assert_eq!(px(&fb, 9, 6), [80, 90, 100, 255]);
    // nothing lands outside the bounding box inflated by half the thickness
    for y in 0..12usize {
        for x in 0..12usize {
            if x < 1 || x > 10 || y < 1 || y > 7 {
                assert_eq!(px(&fb, x, y), [0, 0, 0, 255], "touched ({}, {})", x, y);
            }
        }
    }
}
