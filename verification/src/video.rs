//! Stream metadata: dimensions, frame rate, sample depth and colour
//! description, plus the small decisions the frame-source adapter makes
//! when it reads the first frame.

use vstd::prelude::*;

verus! {

/// Everything the pipeline needs to know about the source video.
/// Built once after indexing; immutable afterwards.
#[derive(Clone)]
pub struct VidInf {
    pub width: u32,
    pub height: u32,
    pub fps_num: u32,
    pub fps_den: u32,
    pub frames: usize,
    pub color_primaries: Option<i32>,
    pub transfer_characteristics: Option<i32>,
    pub matrix_coefficients: Option<i32>,
    pub is_10bit: bool,
    pub color_range: Option<i32>,
    pub chroma_sample_position: Option<i32>,
    pub mastering_display: Option<String>,
    pub content_light: Option<String>,
}

/// Matrix coefficients value 3 means "unspecified"; fall back to the
/// stream-level colour space in that case.
pub fn resolve_matrix(frame_mc: i32, stream_cs: i32) -> (r: i32)
    ensures
        r == if frame_mc == 3 {
            stream_cs
        } else {
            frame_mc
        },
{
    if frame_mc == 3 {
        stream_cs
    } else {
        frame_mc
    }
}

/// Map the decoder's colour-range code to the encoder's flag value:
/// 1 (limited) becomes 0, 2 (full) becomes 1, anything else is absent.
pub fn map_color_range(v: i32) -> (r: Option<i32>)
    ensures
        v == 1 ==> r == Some(0i32),
        v == 2 ==> r == Some(1i32),
        v != 1 && v != 2 ==> r is None,
{
    match v {
        1 => Some(0),
        2 => Some(1),
        _ => None,
    }
}

/// A 10-bit source stores two bytes per luma sample, so the first frame's
/// Y-plane line size reaching twice the width marks the stream as 10-bit.
pub fn detect_10bit(y_linesize: usize, width: u32) -> (r: bool)
    requires
        width * 2 <= usize::MAX,
    ensures
        r == (y_linesize >= width * 2),
{
    y_linesize >= (width as usize) * 2
}

/// Combine the side-channel chroma-location probe with the decoder's
/// per-frame value: the probe wins; a non-zero frame value is used when the
/// probe saw nothing; then 1 (left) maps to 1, 3 (top-left) maps to 2, and
/// every other code yields no flag.
pub fn map_chroma_loc(probe: Option<i32>, frame_chroma: i32) -> (r: Option<i32>)
    ensures
        ({
            let cand = if probe is Some {
                probe
            } else if frame_chroma != 0 {
                Some(frame_chroma)
            } else {
                None::<i32>
            };
            match cand {
                Some(1) => r == Some(1i32),
                Some(3) => r == Some(2i32),
                _ => r is None,
            }
        }),
{
    let cand = match probe {
        Some(v) => Some(v),
        None => {
            if frame_chroma != 0 {
                Some(frame_chroma)
            } else {
                None
            }
        },
    };
    match cand {
        Some(1) => Some(1),
        Some(3) => Some(2),
        _ => None,
    }
}

} // verus!
