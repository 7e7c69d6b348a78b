//! `Serato BeatGrid` GEOB framing.
//!
//! Raw big-endian payload, no base64:
//!
//! ```text
//! 0x01 0x00              version
//! u32  marker_count      (total markers; the last one is terminal)
//! marker_count - 1 non-terminal markers: f32 position_secs, u32 beats_until_next
//! terminal marker:                        f32 position_secs, f32 bpm
//! u8   footer
//! ```
//!
//! The library keeps one uniform grid per track: the first marker's position
//! as the downbeat anchor, and either the terminal BPM (constant tempo) or
//! the tempo of the first interval. This module reads the frame; the
//! positions and tempo come out as the raw IEEE-754 bit patterns of the
//! stored `f32`s, for the caller to turn into seconds and BPM.

use vstd::prelude::*;
use crate::serato::database::{be32, read_be_u32};

verus! {

/// The markers a uniform grid is derived from, as stored.
#[derive(Debug, Clone, Copy, PartialEq, Eq)]
pub struct BeatgridFrame {
    /// The first non-terminal marker: position bits and beats until the next.
    pub first_marker: Option<(u32, u32)>,
    /// The second non-terminal marker's position bits.
    pub second_position_bits: Option<u32>,
    /// The terminal marker's position bits.
    pub terminal_position_bits: u32,
    /// The terminal marker's BPM bits.
    pub terminal_bpm_bits: u32,
}

/// The frame of a payload: `None` when the 6-byte header or any of the
/// `marker_count` 8-byte markers is missing, or when there are no markers.
pub open spec fn frame_of(p: Seq<u8>) -> Option<BeatgridFrame> {
    if p.len() < 6 {
        None
    } else {
        let count = be32(p, 2);
        if count == 0 || 6 + 8 * count > p.len() {
            None
        } else {
            let t = 6 + 8 * (count - 1);
            Some(
                BeatgridFrame {
                    first_marker: if count >= 2 {
                        Some((be32(p, 6) as u32, be32(p, 10) as u32))
                    } else {
                        None
                    },
                    second_position_bits: if count >= 3 {
                        Some(be32(p, 14) as u32)
                    } else {
                        None
                    },
                    terminal_position_bits: be32(p, t) as u32,
                    terminal_bpm_bits: be32(p, t + 4) as u32,
                },
            )
        }
    }
}

/// Read the markers of a `Serato BeatGrid` payload.
pub fn parse_frame(payload: &[u8]) -> (r: Option<BeatgridFrame>)
    ensures
        r == frame_of(payload@),
{
    if payload.len() < 6 {
        return None;
    }
    let count = read_be_u32(payload, 2) as u64;
    if count == 0 || 6 + 8 * count > payload.len() as u64 {
        return None;
    }
    let t = (6 + 8 * (count - 1)) as usize;
    let first_marker = if count >= 2 {
        Some((read_be_u32(payload, 6), read_be_u32(payload, 10)))
    } else {
        None
    };
    let second_position_bits = if count >= 3 {
        Some(read_be_u32(payload, 14))
    } else {
        None
    };
    Some(
        BeatgridFrame {
            first_marker,
            second_position_bits,
            terminal_position_bits: read_be_u32(payload, t),
            terminal_bpm_bits: read_be_u32(payload, t + 4),
        },
    )
}

} // verus!
