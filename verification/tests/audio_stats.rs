use tunnelviz::audio::AudioState;

#[test]
fn energy_and_bass_exact_values() {
    let mut a = AudioState::new();
    a.update_spectrum(&[255u8, 255, 255, 255]);
    let sig = a.compute_frame();
    assert_eq!(sig.energy_milli, 1000);
    assert_eq!(sig.bass_milli, 1000);
    // attack step from a zero envelope: (0 * 90 + 1000 * 10) / 100
    assert_eq!(a.env_milli, 100);
    // pulse = 1000 - 100 - 20 = 880; boost = 0 * 90/100 + 880 * 28
    assert_eq!(a.boost_raw_milli, 24640);
    assert_eq!(sig.boost_milli, 6500);
}

#[test]
fn half_intensity_mean() {
    let mut a = AudioState::new();
    // mean of 51 over 8 bins: 51 * 1000 / 255 = 200 thousandths
    a.update_spectrum(&[51u8; 8]);
    let sig = a.compute_frame();
    assert_eq!(sig.energy_milli, 200);
    assert_eq!(sig.bass_milli, 200);
}

#[test]
fn empty_spectrum_reads_nothing() {
    let mut a = AudioState::new();
    a.update_spectrum(&[]);
    assert_eq!(a.active, 0);
    let sig = a.compute_frame();
    assert_eq!(sig.energy_milli, 0);
    assert_eq!(sig.bass_milli, 0);
}

#[test]
fn stats_touch_only_active_prefix() {
    // Load loud values, then shrink the active prefix: the stale bins
    // beyond the prefix must not influence the averages.
    let mut stale = AudioState::new();
    stale.update_spectrum(&[7, 7, 7, 7, 7, 7, 7, 7, 250, 250, 250, 250]);
    stale.update_spectrum(&[7u8; 8]);
    let mut fresh = AudioState::new();
    fresh.update_spectrum(&[7u8; 8]);
    let s1 = stale.compute_frame();
    let s2 = fresh.compute_frame();
    assert_eq!(s1.energy_milli, s2.energy_milli);
    assert_eq!(s1.bass_milli, s2.bass_milli);
    assert_eq!(s1.boost_milli, s2.boost_milli);
}

#[test]
fn envelope_attack_and_release() {
    let mut a = AudioState::new();
    a.update_spectrum(&[255u8; 4]);
    a.compute_frame();
    assert_eq!(a.env_milli, 100);
    a.compute_frame();
    // attack again: (100 * 90 + 1000 * 10) / 100 = 190
    assert_eq!(a.env_milli, 190);
    a.update_spectrum(&[0u8; 4]);
    a.compute_frame();
    // release: (190 * 98 + 0 * 2) / 100 = 186
    assert_eq!(a.env_milli, 186);
}

#[test]
fn boost_decays_and_stays_clamped() {
    let mut a = AudioState::new();
    a.update_spectrum(&[255u8; 4]);
    a.compute_frame();
    let raw_after_hit = a.boost_raw_milli;
    assert_eq!(raw_after_hit, 24640);
    a.update_spectrum(&[0u8; 4]);
    let sig = a.compute_frame();
    // pure decay: 24640 * 90 / 100 = 22176, still clamped for use
    assert_eq!(a.boost_raw_milli, 22176);
    assert_eq!(sig.boost_milli, 6500);
    for _ in 0..80 {
        let s = a.compute_frame();
        assert!(s.energy_milli <= 1000);
        assert!(s.bass_milli <= 1000);
        assert!(s.boost_milli <= 6500);
    }
    // after a long silence the boost has decayed below the clamp
    assert!(a.compute_frame().boost_milli < 6500);
}

#[test]
fn spectrum_copy_caps_at_capacity() {
    let mut a = AudioState::new();
    let big = vec![9u8; 10000];
    a.update_spectrum(&big);
    assert_eq!(a.active, 8192);
}
