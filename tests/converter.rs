use wasm_realtime_sws::SineWaveSpeechConverter;

#[test]
fn converter_keeps_its_settings() {
    let c = SineWaveSpeechConverter::new(4, 256, 16000);
    assert_eq!(c.n_waves, 4);
    assert_eq!(c.hop_size, 256);
    assert_eq!(c.sample_rate, 16000);
}

#[test]
fn analysis_grid_uses_twice_the_waves_and_two_hops() {
    let c = SineWaveSpeechConverter::new(4, 256, 16000);
    let grid = c.analysis_grid(1024).unwrap();
    assert_eq!(grid.order, 8);
    assert_eq!(grid.window_size, 512);
    assert_eq!(grid.n_hops, 4);
    assert_eq!(grid.pad, 128);
    assert_eq!(c.analysis_grid(255), None);
    assert_eq!(SineWaveSpeechConverter::new(usize::MAX, 256, 16000).analysis_grid(1024), None);
}

#[test]
fn frame_count_of_matching_tracks() {
    let c = SineWaveSpeechConverter::new(4, 256, 16000);
    assert_eq!(c.frame_count(12, 12, 4), Some(3));
    assert_eq!(c.frame_count(8, 8, 4), Some(2));
}

#[test]
fn frame_count_rejects_mismatched_tracks() {
    let c = SineWaveSpeechConverter::new(4, 256, 16000);
    // frequencies and magnitudes differ in length
    assert_eq!(c.frame_count(12, 8, 4), None);
    // not a whole number of frames
    assert_eq!(c.frame_count(10, 10, 4), None);
    // only one frame
    assert_eq!(c.frame_count(4, 4, 4), None);
    // one starting phase too few
    assert_eq!(c.frame_count(12, 12, 3), None);
    // no waves, or no hop
    assert_eq!(SineWaveSpeechConverter::new(0, 256, 16000).frame_count(0, 0, 0), None);
    assert_eq!(SineWaveSpeechConverter::new(4, 0, 16000).frame_count(12, 12, 4), None);
    // a synthesised length that does not fit
    assert_eq!(SineWaveSpeechConverter::new(1, usize::MAX, 16000).frame_count(3, 3, 1), None);
}
