use tunnelviz::Renderer;

#[test]
fn end_to_end_silent_frame() {
    let mut r = Renderer::new(1);
    r.init(100, 100);
    let zeros = vec![0u8; 64];
    r.update_spectrum(&zeros);
    let cols = r.render_frame();
    assert_eq!(cols.len(), 24);
    assert_eq!(r.frame_len(), 40000);
    let data = r.frame_data();
    assert_eq!(data.len(), 40000);
    let mut sum: u64 = 0;
    let mut k: usize = 0;
    while k < data.len() {
        assert_eq!(data[k + 3], 255);
        sum += data[k] as u64 + data[k + 1] as u64 + data[k + 2] as u64;
        k += 4;
    }
    let mean = sum / (3 * 10000);
    assert!(mean < 80, "image not almost-black: mean channel {}", mean);
    // no pointer activity: the inversion ramp stays at zero
    assert_eq!(r.invert_value, 0);
}

#[test]
fn init_idempotent() {
    let mut r = Renderer::new(7);
    r.init(64, 64);
    r.update_spectrum(&[40u8; 32]);
    r.render_frame();
    let before: Vec<u8> = r.frame_data().clone();
    let rings = r.tunnel.ring_count();
    let mut zs: Vec<i64> = Vec::new();
    for i in 0..rings {
        zs.push(r.tunnel.ring_z_milli(i));
    }
    r.init(64, 64);
    assert_eq!(r.frame_len(), 64 * 64 * 4);
    assert_eq!(r.frame_data().as_slice(), before.as_slice());
    assert_eq!(r.tunnel.ring_count(), rings);
    for i in 0..rings {
        assert_eq!(r.tunnel.ring_z_milli(i), zs[i]);
    }
}

#[test]
fn init_resizes_buffers() {
    let mut r = Renderer::new(2);
    r.init(10, 10);
    assert_eq!(r.frame_len(), 400);
    r.init(20, 10);
    assert_eq!(r.frame_len(), 800);
}

#[test]
fn render_without_surface_is_noop() {
    let mut r = Renderer::new(3);
    r.update_spectrum(&[9u8; 16]);
    let cols = r.render_frame();
    assert_eq!(cols.len(), 0);
    assert_eq!(r.frame_data().len(), 0);
}

#[test]
fn ramp_up_then_down() {
    let mut r = Renderer::new(4);
    r.init(8, 8);
    r.update_pointer(1, 1, true, true);
    for n in 1..=10u32 {
        r.render_frame();
        assert_eq!(r.invert_value as u32, (5 * n).min(255));
    }
    r.update_pointer(1, 1, true, false);
    for m in 1..=12u32 {
        r.render_frame();
        assert_eq!(r.invert_value as i32, (50 - 5 * m as i32).max(0));
    }
}

#[test]
fn ramp_saturates_at_255() {
    let mut r = Renderer::new(5);
    r.init(8, 8);
    r.update_pointer(0, 0, true, true);
    for _ in 0..60 {
        r.render_frame();
    }
    assert_eq!(r.invert_value, 255);
    r.render_frame();
    assert_eq!(r.invert_value, 255);
}

#[test]
fn ring_depths_stay_bounded() {
    let mut r = Renderer::new(6);
    r.init(50, 50);
    r.update_spectrum(&[255u8; 8]);
    for frame in 0..60 {
        let pressed = (frame / 7) % 2 == 1;
        r.update_pointer(0, 0, true, pressed);
        r.render_frame();
        let n = r.tunnel.ring_count();
        for i in 0..n {
            let z = r.tunnel.ring_z_milli(i);
            assert!(-400000 <= z && z <= 400000, "ring {} escaped: {}", i, z);
            assert!(-1200000 < z && z < 1200000);
        }
    }
}

#[test]
fn wrap_triggers_depth_sort() {
    let mut r = Renderer::new(8);
    r.init(50, 50);
    // the nearest ring sits at z = -FOV, so the very first frame wraps it
    r.render_frame();
    let n = r.tunnel.ring_count();
    for i in 1..n {
        assert!(
            r.tunnel.ring_z_milli(i - 1) >= r.tunnel.ring_z_milli(i),
            "rings not sorted far-to-near after a wrap"
        );
    }
}

#[test]
fn performance_modes_set_flags() {
    let mut r = Renderer::new(9);
    r.set_performance_mode(1);
    assert!(!r.low_end && !r.glow_on && r.smooth_on);
    r.set_performance_mode(2);
    assert!(!r.low_end && !r.glow_on && !r.smooth_on);
    r.set_performance_mode(0);
    assert!(r.low_end && !r.glow_on && !r.smooth_on);
    r.set_performance_mode(1);
    r.set_low_end_mode(true);
    assert!(r.low_end && !r.glow_on && !r.smooth_on);
}

#[test]
fn render_scale_clamps() {
    let mut r = Renderer::new(10);
    r.set_render_scale(100);
    assert_eq!(r.render_scale_milli, 250);
    r.set_render_scale(5000);
    assert_eq!(r.render_scale_milli, 1000);
    r.set_render_scale(500);
    assert_eq!(r.render_scale_milli, 500);
}

#[test]
fn glow_and_smoothing_frame_completes() {
    let mut r = Renderer::new(11);
    r.init(16, 16);
    r.glow_on = true;
    r.smooth_on = true;
    r.update_spectrum(&[200u8; 64]);
    r.render_frame();
    let data = r.frame_data();
    assert_eq!(data.len(), 16 * 16 * 4);
    let mut k: usize = 3;
    while k < data.len() {
        assert_eq!(data[k], 255);
        k += 4;
    }
}

#[test]
fn low_end_builds_sparser_tunnel() {
    let mut dense = Renderer::new(12);
    dense.init(32, 32);
    assert_eq!(dense.tunnel.ring_count(), 160);
    let mut sparse = Renderer::new(12);
    sparse.set_low_end_mode(true);
    sparse.init(32, 32);
    assert_eq!(sparse.tunnel.ring_count(), 80);
}

#[test]
fn mini_levels_track_noise_floor() {
    let mut r = Renderer::new(13);
    r.init(8, 8);
    r.update_spectrum(&[0u8; 38]);
    let quiet = r.mini_levels(19);
    assert_eq!(quiet.len(), 19);
    assert!(quiet.iter().all(|&b| !b));
    r.update_spectrum(&[255u8; 38]);
    let loud = r.mini_levels(19);
    assert!(loud.iter().all(|&b| b));
}
