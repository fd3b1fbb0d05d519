use wasm_realtime_sws::lpc::{pole_polynomial, toeplitz_edge, HopGrid};

#[test]
fn hop_grid_with_default_window() {
    let grid = HopGrid::new(10, 2, 2, None).unwrap();
    assert_eq!(grid.window_size, 4);
    assert_eq!(grid.n_hops, 5);
    assert_eq!(grid.pad, 1);
    assert_eq!(grid.padded_len(), 12);
    assert_eq!(grid.residual_len(), 12);
    assert_eq!(grid.frame_start(0), 0);
    assert_eq!(grid.frame_start(4), 8);
}

#[test]
fn hop_grid_rejects_unusable_settings() {
    // no hop
    assert_eq!(HopGrid::new(10, 2, 0, None), None);
    // fewer samples than one hop
    assert_eq!(HopGrid::new(1, 1, 2, None), None);
    // a window shorter than a hop
    assert_eq!(HopGrid::new(10, 1, 2, Some(1)), None);
    // a window no longer than the order
    assert_eq!(HopGrid::new(10, 4, 2, None), None);
    // no coefficients to fit
    assert_eq!(HopGrid::new(10, 0, 2, None), None);
    // the last frame would run past the padded signal
    assert_eq!(HopGrid::new(4, 1, 2, Some(3)), None);
    // a default window that overflows
    assert_eq!(HopGrid::new(10, 1, usize::MAX, None), None);
}

#[test]
fn hop_grid_accepts_an_odd_window_when_the_last_frame_fits() {
    let grid = HopGrid::new(5, 1, 2, Some(3)).unwrap();
    assert_eq!(grid.n_hops, 2);
    assert_eq!(grid.pad, 0);
    assert_eq!(grid.frame_start(1) + grid.window_size, grid.padded_len());
}

#[test]
fn hop_grid_pads_and_frames() {
    let grid = HopGrid::new(3, 1, 1, Some(3)).unwrap();
    assert_eq!(grid.pad, 1);
    let padded = grid.pad_signal(&vec![1, 2, 3], 0);
    assert_eq!(padded, vec![0, 1, 2, 3, 0]);
    assert_eq!(grid.frame(&padded, 0), vec![0, 1, 2]);
    assert_eq!(grid.frame(&padded, 1), vec![1, 2, 3]);
    assert_eq!(grid.frame(&padded, 2), vec![2, 3, 0]);
    assert_eq!(grid.residual_len(), 5);
}

#[test]
fn toeplitz_edge_mirrors_the_lags() {
    let lags = vec![10, 11, 12, 13];
    assert_eq!(toeplitz_edge(&lags, 3), vec![12, 11, 10, 11, 12]);
    assert_eq!(toeplitz_edge(&lags, 1), vec![10]);
    assert_eq!(toeplitz_edge(&lags, 4), vec![13, 12, 11, 10, 11, 12, 13]);
}

#[test]
fn pole_polynomial_reverses_the_predictor() {
    assert_eq!(pole_polynomial(&vec![1, 5, 6, 7]), vec![7, 6, 5]);
    assert_eq!(pole_polynomial(&vec![1]), Vec::<i32>::new());
}
