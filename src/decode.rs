//! Checks that a frame may be decoded into the caller's planar buffer.
//!
//! The decoder reports the frame's encoded dimensions and the number of
//! bytes its planar output takes; these functions decide, from those values,
//! whether decoding goes ahead.
use vstd::prelude::*;

verus! {

/// Why a frame was not decoded. Every one of these skips the frame alone.
#[derive(Debug, PartialEq, Eq)]
pub enum DecodeError {
    /// The frame's encoded size is not the one the stream was opened with.
    DimensionMismatch { expected_width: u32, expected_height: u32, width: usize, height: usize },
    /// The planar output needs more bytes than the destination holds.
    BufferTooSmall { needed: usize, available: usize },
    /// The decoder itself failed; its diagnostic is kept.
    DecodeFailed(String),
}

/// Bytes of one 4:2:2 planar frame: two bytes per pixel on average.
pub open spec fn i422_len(width: u32, height: u32) -> int {
    width * height * 2
}

/// The size of the decoded frame buffer for `width` x `height`, or `None`
/// where it does not fit in memory.
pub fn i422_frame_len(width: u32, height: u32) -> (r: Option<usize>)
    ensures
        r.is_some() <==> i422_len(width, height) <= usize::MAX,
        r.is_some() ==> r.unwrap() == i422_len(width, height),
{
    let w = width as u64;
    let h = height as u64;
    assert(w * h <= 0xffff_ffff_ffff_ffff) by (nonlinear_arith)
        requires
            w <= 0xffff_ffff,
            h <= 0xffff_ffff,
    ;
    let pixels: u64 = w * h;
    if pixels > (usize::MAX / 2) as u64 {
        None
    } else {
        Some((pixels * 2) as usize)
    }
}

/// Accepts a frame whose encoded size is the expected one.
pub fn check_dimensions(width: usize, height: usize, expected_width: u32, expected_height: u32) -> (r:
    Result<(), DecodeError>)
    ensures
        r.is_ok() <==> (width == expected_width && height == expected_height),
        r.is_err() ==> r == Err::<(), DecodeError>(
            DecodeError::DimensionMismatch { expected_width, expected_height, width, height },
        ),
{
    if width != expected_width as usize || height != expected_height as usize {
        Err(DecodeError::DimensionMismatch { expected_width, expected_height, width, height })
    } else {
        Ok(())
    }
}

/// Accepts a destination of `available` bytes for an output of `needed` bytes.
pub fn check_capacity(needed: usize, available: usize) -> (r: Result<(), DecodeError>)
    ensures
        r.is_ok() <==> needed <= available,
        r.is_err() ==> r == Err::<(), DecodeError>(DecodeError::BufferTooSmall { needed, available }),
{
    if needed > available {
        Err(DecodeError::BufferTooSmall { needed, available })
    } else {
        Ok(())
    }
}

} // verus!
