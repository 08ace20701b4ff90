use tunnelviz::audio::AudioState;
use tunnelviz::vu::VuState;

#[test]
fn silent_spectrum_all_columns_zero() {
    let mut audio = AudioState::new();
    audio.update_spectrum(&[0u8; 72]);
    let mut vu = VuState::new(24);
    let out = vu.step(&audio);
    assert_eq!(out.len(), 24);
    for c in out.iter() {
        assert_eq!(c.low, 0);
        assert_eq!(c.mid, 0);
        assert_eq!(c.high, 0);
        assert_eq!(c.cut, 0);
        assert_eq!(c.mid_bottom, 0);
        assert_eq!(c.high_bottom, 0);
    }
}

#[test]
fn full_scale_heights_quantize_and_rescale() {
    // 72 bins at full scale with 24 columns: one bin per bucket, so each
    // band's mean is exactly 1000 thousandths. Gated: 880. Weighted and
    // quantized: 78000 / 66000 / 60000 milli-percent, total 204000, so
    // the column rescales by floor(1e8 / 204000) = 490 and re-quantizes.
    let mut audio = AudioState::new();
    audio.update_spectrum(&[255u8; 72]);
    let mut vu = VuState::new(24);
    let out = vu.step(&audio);
    for c in out.iter() {
        assert_eq!(c.low, 36000);
        assert_eq!(c.mid, 30000);
        assert_eq!(c.high, 24000);
        assert_eq!(c.cut, 90000);
        assert_eq!(c.mid_bottom, 36000);
        assert_eq!(c.high_bottom, 66000);
    }
}

#[test]
fn release_bleed_decays_from_previous_frame() {
    let mut audio = AudioState::new();
    audio.update_spectrum(&[255u8; 72]);
    let mut vu = VuState::new(24);
    vu.step(&audio);
    // the held (pre-rescale) heights are 78000 / 66000 / 60000
    audio.update_spectrum(&[0u8; 72]);
    let out = vu.step(&audio);
    // only the release bleed remains (prev * 85 / 100 = 66300 / 56100 /
    // 51000), whose total still exceeds 100% and rescales by 576
    for c in out.iter() {
        assert_eq!(c.low, 36000);
        assert_eq!(c.mid, 30000);
        assert_eq!(c.high, 24000);
    }
    // and it keeps decaying toward zero
    let mut last = 36000u32;
    for _ in 0..100 {
        let o = vu.step(&audio);
        assert!(o[0].low <= last);
        last = o[0].low;
    }
    assert_eq!(last, 0);
}

#[test]
fn noise_floor_gates_small_signals() {
    // mean 117 thousandths (bin value 30) is below the 120 floor
    let mut audio = AudioState::new();
    audio.update_spectrum(&[30u8; 72]);
    let mut vu = VuState::new(24);
    let out = vu.step(&audio);
    for c in out.iter() {
        assert_eq!(c.low, 0);
        assert_eq!(c.mid, 0);
        assert_eq!(c.high, 0);
    }
}

#[test]
fn heights_rise_instantly() {
    let mut audio = AudioState::new();
    audio.update_spectrum(&[0u8; 72]);
    let mut vu = VuState::new(24);
    let quiet = vu.step(&audio);
    assert_eq!(quiet[0].low, 0);
    audio.update_spectrum(&[255u8; 72]);
    let loud = vu.step(&audio);
    assert!(loud[0].low > 0, "rise must not be delayed by hysteresis");
}
