use esp_s3_hal::hal::audio::{vad_energy, AudioSource, MockMic, VAD_THRESHOLD};

#[test]
fn vad_empty_is_silent() {
    assert!(!vad_energy(&[]));
}

#[test]
fn vad_threshold_edges() {
    assert_eq!(VAD_THRESHOLD, 2048);
    assert!(!vad_energy(&[2048, -2048, 2048]));
    assert!(vad_energy(&[2049, -2049]));
    assert!(!vad_energy(&[0, 0, 0, 4096]));
    assert!(vad_energy(&[4096, 4096, 0, 0]));
    // RMS just above the threshold, though the rounded-down mean square is not
    assert!(vad_energy(&[2047, 2048, 2049]));
    assert!(!vad_energy(&[2047, 2048, 2048]));
}

#[test]
fn vad_extreme_samples() {
    assert!(vad_energy(&[i16::MIN, i16::MAX]));
}

#[test]
fn mock_starts_quiet() {
    let mut mic = MockMic::new();
    let mut buf = [0i16; 128];
    let n = mic.read(&mut buf);
    assert_eq!(n, 128);
    assert_eq!(buf[0], 200);
    assert_eq!(buf[15], 200);
    assert_eq!(buf[16], -200);
    assert_eq!(buf[32], 200);
    assert!(!vad_energy(&buf[..n]));
}

#[test]
fn mock_loud_burst_triggers_vad() {
    let mut mic = MockMic::new();
    let mut quiet = [0i16; 200];
    assert_eq!(mic.read(&mut quiet), 200);
    assert!(!vad_energy(&quiet));
    let mut loud = [0i16; 80];
    assert_eq!(mic.read(&mut loud), 80);
    assert_eq!(loud[0], 3277);
    assert_eq!(loud[8], -3277);
    assert!(loud.iter().all(|s| *s == 3277 || *s == -3277));
    assert!(vad_energy(&loud));
}

#[test]
fn mock_pattern_repeats() {
    let mut mic = MockMic::new();
    let mut a = [0i16; 560];
    mic.read(&mut a);
    // position 280 starts a new cycle: quiet, sign from (280 / 16) % 2 == 1
    assert_eq!(a[280], -200);
    assert_eq!(a[480], 3277);
    assert_eq!(a[200], 3277);
}

#[test]
fn mock_empty_read() {
    let mut mic = MockMic::new();
    let mut buf: [i16; 0] = [];
    assert_eq!(mic.read(&mut buf), 0);
}
