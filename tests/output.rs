use mjpeg_i422::decode::{check_capacity, check_dimensions, i422_frame_len, DecodeError};
use mjpeg_i422::driver::{after_read, after_write, chunk_size, Flow, DEFAULT_CHUNK_SIZE};
use mjpeg_i422::pipe::{
    is_pipe_fd, mode_is_pipe, parse_pipe_max_size, pipe_size_target, set_pipe_max_size_fd,
    stat_is_pipe, Transfer, TransferStep, WriteError, EINTR, EPIPE,
};

#[test]
fn frame_len_of_160_by_90() {
    assert_eq!(i422_frame_len(160, 90), Some(28800));
    assert_eq!(i422_frame_len(0, 90), Some(0));
    assert_eq!(i422_frame_len(u32::MAX, u32::MAX), None);
}

#[test]
fn dimension_mismatch_is_reported() {
    assert_eq!(check_dimensions(160, 90, 160, 90), Ok(()));
    assert_eq!(
        check_dimensions(320, 240, 160, 90),
        Err(DecodeError::DimensionMismatch {
            expected_width: 160,
            expected_height: 90,
            width: 320,
            height: 240
        })
    );
    assert!(check_dimensions(160, 91, 160, 90).is_err());
}

#[test]
fn small_buffer_is_reported() {
    assert_eq!(check_capacity(28800, 28800), Ok(()));
    assert_eq!(
        check_capacity(28801, 28800),
        Err(DecodeError::BufferTooSmall { needed: 28801, available: 28800 })
    );
}

#[test]
fn pipe_mode_recognised() {
    assert!(mode_is_pipe(0o010644));
    assert!(!mode_is_pipe(0o100644));
    assert!(!mode_is_pipe(0o020666));
    assert!(stat_is_pipe(Ok(0o010600)));
    assert!(!stat_is_pipe(Err(9)));
}

#[test]
fn pipe_max_size_text() {
    assert_eq!(parse_pipe_max_size(b"1048576\n"), Some(1048576));
    assert_eq!(parse_pipe_max_size(b"+42 \t\n"), Some(42));
    assert_eq!(parse_pipe_max_size(b""), None);
    assert_eq!(parse_pipe_max_size(b"\n"), None);
    assert_eq!(parse_pipe_max_size(b"+"), None);
    assert_eq!(parse_pipe_max_size(b" 12"), None);
    assert_eq!(parse_pipe_max_size(b"12a\n"), None);
    assert_eq!(parse_pipe_max_size(b"18446744073709551615"), Some(usize::MAX));
    assert_eq!(parse_pipe_max_size(b"18446744073709551616"), None);
    assert_eq!(parse_pipe_max_size(b"99999999999999999999999x"), None);
}

#[test]
fn pipe_max_size_text_unicode_space() {
    assert_eq!(parse_pipe_max_size("42\u{a0}".as_bytes()), Some(42));
    assert_eq!(parse_pipe_max_size("42\u{85}\n".as_bytes()), Some(42));
    assert_eq!(parse_pipe_max_size("42\u{1680}".as_bytes()), Some(42));
    assert_eq!(parse_pipe_max_size("42\u{2005}\u{3000}\n".as_bytes()), Some(42));
    assert_eq!(parse_pipe_max_size("42\u{2028}\u{2029}\u{202f}\u{205f}".as_bytes()), Some(42));
    assert_eq!(parse_pipe_max_size("42\u{200b}".as_bytes()), None);
    assert_eq!(parse_pipe_max_size("\u{a0}42".as_bytes()), None);
    for text in ["7\u{a0}", "7\u{3000}\t", "7\u{200a}", "7\u{200b}", "+7 ", " 7"] {
        assert_eq!(
            parse_pipe_max_size(text.as_bytes()),
            text.trim_end().parse::<usize>().ok()
        );
    }
}

#[test]
fn empty_remainder_makes_no_attempt() {
    let mut t = Transfer::new(0);
    assert_eq!(t.attempt(-1, &[]), TransferStep::Finished);
    let mut t = Transfer::new(4);
    assert_eq!(t.on_result(Ok(4)), TransferStep::Finished);
    assert_eq!(t.attempt(-1, &[1, 2, 3, 4]), TransferStep::Finished);
}

#[test]
fn remainder_starts_at_offset() {
    let data = [1u8, 2, 3, 4, 5];
    let mut t = Transfer::new(5);
    assert_eq!(t.remainder(&data), &data[..]);
    assert_eq!(t.on_result(Ok(2)), TransferStep::Again);
    assert_eq!(t.remainder(&data), &[3u8, 4, 5][..]);
    let mut bad = Transfer::new(5);
    assert_eq!(bad.attempt(-1, &data), TransferStep::Failed(WriteError::Os(9)));
    assert_eq!(bad.offset(), 0);
}

#[test]
fn capacity_target() {
    assert_eq!(pipe_size_target(65536, 1048576), Some(1048576));
    assert_eq!(pipe_size_target(1048576, 1048576), None);
    assert_eq!(pipe_size_target(2097152, 1048576), None);
    assert_eq!(pipe_size_target(65536, usize::MAX), Some(i32::MAX));
}

#[test]
fn transfer_steps() {
    let mut t = Transfer::new(10);
    assert!(!t.is_finished());
    assert_eq!(t.on_result(Ok(4)), TransferStep::Again);
    assert_eq!(t.offset(), 4);
    assert_eq!(t.on_result(Err(EINTR)), TransferStep::Again);
    assert_eq!(t.offset(), 4);
    assert_eq!(t.on_result(Ok(0)), TransferStep::Failed(WriteError::WriteZero));
    assert_eq!(t.on_result(Err(5)), TransferStep::Failed(WriteError::Os(5)));
    assert_eq!(t.on_result(Ok(6)), TransferStep::Finished);
    assert!(t.is_finished());
    assert_eq!(t.offset(), 10);
}

#[test]
fn closed_reader_is_broken_pipe() {
    let mut t = Transfer::new(3);
    assert_eq!(t.on_result(Err(EPIPE)), TransferStep::Failed(WriteError::BrokenPipe));
    assert_eq!(after_write(Err(WriteError::BrokenPipe)), Ok(Flow::Stop));
}

#[test]
fn empty_transfer_is_finished() {
    let t = Transfer::new(0);
    assert!(t.is_finished());
}

#[test]
fn driver_decisions() {
    assert_eq!(after_write(Ok(())), Ok(Flow::Continue));
    assert_eq!(after_write(Err(WriteError::Os(5))), Err(WriteError::Os(5)));
    assert_eq!(after_write(Err(WriteError::WriteZero)), Err(WriteError::WriteZero));
    assert_eq!(after_read(0), Flow::Stop);
    assert_eq!(after_read(1), Flow::Continue);
    assert_eq!(chunk_size(None), DEFAULT_CHUNK_SIZE);
    assert_eq!(chunk_size(Some(1048576)), 1048576);
}

#[test]
fn real_pipe_transfer_and_close() {
    let (r, w) = nix::unistd::pipe().unwrap();
    assert!(is_pipe_fd(r).0);
    assert!(is_pipe_fd(w).0);
    assert!(is_pipe_fd(w).1.is_ok());
    assert!(!is_pipe_fd(-1).0);
    assert!(is_pipe_fd(-1).1.is_err());
    let (current, asked) = set_pipe_max_size_fd(w, 1 << 17).unwrap();
    assert_eq!(asked, pipe_size_target(current, 1 << 17));
    let (raised, again) = set_pipe_max_size_fd(w, 1 << 17).unwrap();
    assert!(raised >= 1 << 17);
    assert_eq!(again, None);
    assert!(set_pipe_max_size_fd(-1, 1 << 17).is_err());
    let data = vec![7u8; 1000];
    let mut t = Transfer::new(data.len());
    loop {
        match t.attempt(w, &data) {
            TransferStep::Finished => break,
            TransferStep::Again => {}
            TransferStep::Failed(e) => panic!("{:?}", e),
        }
    }
    let mut back = vec![0u8; 1000];
    let mut got = 0;
    while got < back.len() {
        got += nix::unistd::read(r, &mut back[got..]).unwrap();
    }
    assert_eq!(back, data);
    nix::unistd::close(r).unwrap();
    let mut t = Transfer::new(data.len());
    assert_eq!(t.attempt(w, &data), TransferStep::Failed(WriteError::BrokenPipe));
    nix::unistd::close(w).unwrap();
}
