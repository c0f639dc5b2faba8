use testcard::surface::{DisplayEvent, Surface, SurfaceError};

#[test]
fn new_surface_is_idle_with_zeroed_frames() {
    let s = Surface::new(4, 3, 16);
    assert_eq!(s.front, 0);
    assert_eq!(s.back(), 1);
    assert!(!s.pending);
    assert_eq!(s.row_stride(), 16);
    assert_eq!(s.frame0.pixels.len(), 48);
    assert_eq!(s.frame1.pixels.len(), 48);
    assert!(s.frame0.pixels.iter().all(|&b| b == 0));
    assert!(s.frame1.pixels.iter().all(|&b| b == 0));
}

#[test]
fn write_to_back_fills_the_back_frame() {
    let mut s = Surface::new(4, 3, 16);
    let staging = vec![0xFFu8; 48];
    assert_eq!(s.write_to_back(&staging, 16), Ok(()));
    // the back frame (frame 1) reads back all 0xFF
    assert!(s.frame1.pixels.iter().all(|&b| b == 0xFF));
    // the front frame is never touched
    assert!(s.frame0.pixels.iter().all(|&b| b == 0));
    assert_eq!(s.front, 0);
    assert!(!s.pending);
}

#[test]
fn write_to_back_rejects_a_short_staging_buffer() {
    let mut s = Surface::new(4, 3, 16);
    let staging = vec![0xFFu8; 47];
    assert_eq!(s.write_to_back(&staging, 16), Err(SurfaceError::BufferTooSmall));
    assert!(s.frame1.pixels.iter().all(|&b| b == 0));
}

#[test]
fn write_to_back_truncates_long_staging_rows() {
    // staging rows of 20 bytes feed frame rows of 16: each frame row takes
    // the first 16 bytes of its staging row
    let mut s = Surface::new(4, 3, 16);
    let mut staging = vec![0u8; 60];
    for (i, b) in staging.iter_mut().enumerate() {
        *b = i as u8;
    }
    assert_eq!(s.write_to_back(&staging, 20), Ok(()));
    for y in 0..3 {
        for k in 0..16 {
            assert_eq!(s.frame1.pixels[y * 16 + k], (y * 20 + k) as u8);
        }
    }
}

#[test]
fn write_to_back_pads_short_staging_rows() {
    // staging rows of 8 bytes fill only the first 8 bytes of each frame row
    let mut s = Surface::new(4, 3, 16);
    let staging = vec![0x55u8; 24];
    assert_eq!(s.write_to_back(&staging, 8), Ok(()));
    for y in 0..3 {
        for k in 0..16 {
            let want = if k < 8 { 0x55 } else { 0 };
            assert_eq!(s.frame1.pixels[y * 16 + k], want);
        }
    }
}

#[test]
fn second_flip_without_completion_is_rejected() {
    let mut s = Surface::new(4, 3, 16);
    assert_eq!(s.flip(), Ok(()));
    assert!(s.pending);
    // both further flips fail while the first is outstanding
    assert_eq!(s.flip(), Err(SurfaceError::FlipAlreadyPending));
    assert_eq!(s.flip(), Err(SurfaceError::FlipAlreadyPending));
    assert_eq!(s.front, 0);
    // unrelated events do not complete the flip
    assert!(!s.absorb_completion_events(&vec![DisplayEvent::Other]));
    assert_eq!(s.flip(), Err(SurfaceError::FlipAlreadyPending));
    // one completion swaps the frames and allows the next flip
    assert!(s.absorb_completion_events(&vec![DisplayEvent::FlipCompleted]));
    assert_eq!(s.front, 1);
    assert_eq!(s.back(), 0);
    assert!(!s.pending);
    assert_eq!(s.flip(), Ok(()));
}

#[test]
fn completions_without_a_pending_flip_are_ignored() {
    let mut s = Surface::new(4, 3, 16);
    let evs = vec![DisplayEvent::FlipCompleted, DisplayEvent::FlipCompleted];
    assert!(!s.absorb_completion_events(&evs));
    assert_eq!(s.front, 0);
    assert!(!s.pending);
}

#[test]
fn one_batch_absorbs_at_most_one_completion() {
    let mut s = Surface::new(4, 3, 16);
    assert_eq!(s.flip(), Ok(()));
    let evs = vec![
        DisplayEvent::Other,
        DisplayEvent::FlipCompleted,
        DisplayEvent::FlipCompleted,
    ];
    assert!(s.absorb_completion_events(&evs));
    // the second completion found no pending flip and changed nothing
    assert_eq!(s.front, 1);
    assert!(!s.pending);
}
