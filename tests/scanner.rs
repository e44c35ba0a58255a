use mjpeg_i422::scanner::{FrameScanner, ScanState};

fn frame(body: &[u8]) -> Vec<u8> {
    let mut f = vec![0xff, 0xd8];
    f.extend_from_slice(body);
    f.extend_from_slice(&[0xff, 0xd9]);
    f
}

fn scan_in_chunks(input: &[u8], size: usize) -> (Vec<Vec<u8>>, ScanState, usize) {
    let mut s = FrameScanner::new();
    let mut frames = Vec::new();
    for chunk in input.chunks(size) {
        frames.extend(s.feed(chunk));
    }
    (frames, s.scan_state(), s.pending_len())
}

#[test]
fn single_frame_extracted_with_markers() {
    let f = frame(&[0x01, 0x02, 0x03]);
    let mut s = FrameScanner::new();
    let frames = s.feed(&f);
    assert_eq!(frames, vec![f.clone()]);
    assert_eq!(s.pending_len(), 0);
    assert_eq!(s.scan_state(), ScanState::Idle);
}

#[test]
fn shortest_frame() {
    let f = vec![0xff, 0xd8, 0xff, 0xd9];
    let mut s = FrameScanner::new();
    assert_eq!(s.feed(&f), vec![f.clone()]);
}

#[test]
fn bare_ff_inside_frame_is_kept() {
    let f = frame(&[0x10, 0xff, 0x20, 0xff, 0xff, 0xd8, 0x30]);
    let mut s = FrameScanner::new();
    let frames = s.feed(&f);
    assert_eq!(frames.len(), 1);
    assert_eq!(frames[0], f);
    assert_eq!(frames[0][3], 0xff);
}

#[test]
fn garbage_before_first_start_is_dropped() {
    let mut input = vec![0x00, 0x01, 0xff, 0x02, 0xd8, 0xff];
    let f = frame(&[0x55, 0x66]);
    input.extend_from_slice(&f);
    let mut s = FrameScanner::new();
    assert_eq!(s.feed(&input), vec![f]);
    assert_eq!(s.pending_len(), 0);
}

#[test]
fn partial_frame_is_held_between_chunks() {
    let f = frame(&[0x01, 0xff]);
    let mut s = FrameScanner::new();
    assert!(s.feed(&f[..5]).is_empty());
    assert_eq!(s.scan_state(), ScanState::SawEnd);
    assert_eq!(s.pending_len(), 5);
    assert_eq!(s.feed(&f[5..]), vec![f.clone()]);
    assert_eq!(s.pending_len(), 0);
}

#[test]
fn chunking_does_not_change_frames() {
    let mut input = vec![0x00, 0x01, 0x02];
    let a = frame(&[0x11, 0xff, 0x12, 0x13]);
    let b = frame(&[0x21, 0xff, 0xff, 0x22]);
    input.extend_from_slice(&a);
    input.extend_from_slice(&[0xaa, 0xff]);
    input.extend_from_slice(&b);
    input.extend_from_slice(&[0xff, 0xd8, 0x01]);
    let whole = scan_in_chunks(&input, input.len());
    assert_eq!(whole.0, vec![a, b]);
    assert_eq!(whole.1, ScanState::InFrame);
    assert_eq!(whole.2, 3);
    for size in 1..input.len() {
        assert_eq!(scan_in_chunks(&input, size), whole);
    }
}

#[test]
fn two_frames_with_junk_between() {
    let mut input = vec![0x00, 0x01, 0x02];
    let a = frame(&[0x01; 10]);
    let b = frame(&[0x02; 12]);
    input.extend_from_slice(&a);
    input.extend_from_slice(&[0x03, 0x04]);
    input.extend_from_slice(&b);
    let (frames, state, pending) = scan_in_chunks(&input, 7);
    assert_eq!(frames, vec![a, b]);
    assert_eq!(state, ScanState::Idle);
    assert_eq!(pending, 0);
}

#[test]
fn start_marker_needs_both_bytes() {
    let mut s = FrameScanner::new();
    assert!(s.feed(&[0xff, 0x00, 0xd8, 0xff, 0xd9]).is_empty());
    assert_eq!(s.scan_state(), ScanState::Idle);
    assert_eq!(s.pending_len(), 0);
}

#[test]
fn repeated_ff_before_start_marker() {
    let mut s = FrameScanner::new();
    let out = s.feed(&[0xff, 0xff, 0xff, 0xd8, 0x01, 0xff, 0xd9]);
    assert_eq!(out, vec![vec![0xff, 0xd8, 0x01, 0xff, 0xd9]]);
}

#[test]
fn byte_by_byte_push() {
    let f = frame(&[0x42]);
    let mut s = FrameScanner::new();
    for &b in &f[..f.len() - 1] {
        assert_eq!(s.push_byte(b), None);
    }
    assert_eq!(s.push_byte(0xd9), Some(f));
}

#[test]
fn every_frame_is_a_run_of_the_input() {
    let input: Vec<u8> = vec![
        0x05, 0xff, 0xd8, 0x01, 0xff, 0x02, 0xff, 0xd9, 0xd9, 0xff, 0xff, 0xd8, 0xff, 0xff,
        0xd9, 0xd8, 0xff, 0xd8, 0xd9, 0x00, 0xff, 0xd9, 0xff, 0xd8, 0x07,
    ];
    let mut s = FrameScanner::new();
    let frames = s.feed(&input);
    assert_eq!(
        frames,
        vec![
            vec![0xff, 0xd8, 0x01, 0xff, 0x02, 0xff, 0xd9],
            vec![0xff, 0xd8, 0xff, 0xff, 0xd9],
            vec![0xff, 0xd8, 0xd9, 0x00, 0xff, 0xd9],
        ]
    );
    for f in &frames {
        assert!(input.windows(f.len()).any(|w| w == &f[..]));
        assert_eq!(&f[..2], &[0xff, 0xd8]);
        assert_eq!(&f[f.len() - 2..], &[0xff, 0xd9]);
        assert!(!f[..f.len() - 2].windows(2).any(|w| w == [0xff, 0xd9]));
    }
    assert_eq!(s.scan_state(), ScanState::InFrame);
    assert_eq!(s.pending_len(), 3);
}
