//! Unequal Error Protection (UEP) depuncturing for legacy DAB audio.
//!
//! Short-form FIG 0/1 selects one of the standardized UEP profiles. A
//! profile divides each 24 ms logical frame into four regions, each using a
//! different puncturing vector, followed by the six-bit convolutional-code
//! termination punctured with `PI_TAIL` (ETSI EN 300 401, clauses 11.1.2
//! and 11.3.1, Table 15).
use vstd::prelude::*;

use crate::puncture::{count_ones, lemma_p_code_ones, lemma_tail_ones, PI_TAIL, P_CODES};

verus! {

/// Standards-defined UEP channel-coding profile.
#[derive(Debug, Clone, Copy, PartialEq, Eq)]
pub struct UepProfile {
    pub bitrate: u16,
    /// UEP protection level (1 strongest, 5 weakest).
    pub level: u8,
    /// Number of 128-coded-bit blocks in the four unequal regions.
    pub l: [usize; 4],
    /// Zero-based indices into `P_CODES`; `None` is valid only for a zero-length region.
    pub pi: [Option<usize>; 4],
}

/// All standardized UEP profiles used by FIG 0/1 short form (Table 15).
pub open spec fn spec_uep_profiles() -> Seq<UepProfile> {
    seq![
        UepProfile {
            bitrate: 32,
            level: 5,
            l: [3, 4, 17, 0],
            pi: [Some(4), Some(2), Some(1), None],
        },
        UepProfile {
            bitrate: 32,
            level: 4,
            l: [3, 3, 18, 0],
            pi: [Some(10), Some(5), Some(4), None],
        },
        UepProfile {
            bitrate: 32,
            level: 3,
            l: [3, 4, 14, 3],
            pi: [Some(14), Some(8), Some(5), Some(7)],
        },
        UepProfile {
            bitrate: 32,
            level: 2,
            l: [3, 4, 14, 3],
            pi: [Some(21), Some(12), Some(7), Some(12)],
        },
        UepProfile {
            bitrate: 32,
            level: 1,
            l: [3, 5, 13, 3],
            pi: [Some(23), Some(16), Some(11), Some(16)],
        },
        UepProfile {
            bitrate: 48,
            level: 5,
            l: [4, 3, 26, 3],
            pi: [Some(4), Some(3), Some(1), Some(2)],
        },
        UepProfile {
            bitrate: 48,
            level: 4,
            l: [3, 4, 26, 3],
            pi: [Some(8), Some(5), Some(3), Some(5)],
        },
        UepProfile {
            bitrate: 48,
            level: 3,
            l: [3, 4, 26, 3],
            pi: [Some(14), Some(9), Some(5), Some(8)],
        },
        UepProfile {
            bitrate: 48,
            level: 2,
            l: [3, 4, 26, 3],
            pi: [Some(23), Some(13), Some(7), Some(14)],
        },
        UepProfile {
            bitrate: 48,
            level: 1,
            l: [3, 5, 25, 3],
            pi: [Some(23), Some(17), Some(12), Some(17)],
        },
        UepProfile {
            bitrate: 56,
            level: 5,
            l: [6, 10, 23, 3],
            pi: [Some(4), Some(3), Some(1), Some(2)],
        },
        UepProfile {
            bitrate: 56,
            level: 4,
            l: [6, 10, 23, 3],
            pi: [Some(8), Some(5), Some(3), Some(4)],
        },
        UepProfile {
            bitrate: 56,
            level: 3,
            l: [6, 12, 21, 3],
            pi: [Some(15), Some(6), Some(5), Some(8)],
        },
        UepProfile {
            bitrate: 56,
            level: 2,
            l: [6, 10, 23, 3],
            pi: [Some(22), Some(12), Some(7), Some(12)],
        },
        UepProfile {
            bitrate: 64,
            level: 5,
            l: [6, 9, 31, 2],
            pi: [Some(4), Some(2), Some(1), Some(2)],
        },
        UepProfile {
            bitrate: 64,
            level: 4,
            l: [6, 9, 33, 0],
            pi: [Some(10), Some(5), Some(4), None],
        },
        UepProfile {
            bitrate: 64,
            level: 3,
            l: [6, 12, 27, 3],
            pi: [Some(15), Some(7), Some(5), Some(8)],
        },
        UepProfile {
            bitrate: 64,
            level: 2,
            l: [6, 10, 29, 3],
            pi: [Some(22), Some(12), Some(7), Some(12)],
        },
        UepProfile {
            bitrate: 64,
            level: 1,
            l: [6, 11, 28, 3],
            pi: [Some(23), Some(17), Some(11), Some(17)],
        },
        UepProfile {
            bitrate: 80,
            level: 5,
            l: [6, 10, 41, 3],
            pi: [Some(5), Some(2), Some(1), Some(2)],
        },
        UepProfile {
            bitrate: 80,
            level: 4,
            l: [6, 10, 41, 3],
            pi: [Some(10), Some(5), Some(4), Some(5)],
        },
        UepProfile {
            bitrate: 80,
            level: 3,
            l: [6, 11, 40, 3],
            pi: [Some(15), Some(7), Some(5), Some(6)],
        },
        UepProfile {
            bitrate: 80,
            level: 2,
            l: [6, 10, 41, 3],
            pi: [Some(22), Some(12), Some(7), Some(12)],
        },
        UepProfile {
            bitrate: 80,
            level: 1,
            l: [6, 10, 41, 3],
            pi: [Some(23), Some(16), Some(11), Some(17)],
        },
        UepProfile {
            bitrate: 96,
            level: 5,
            l: [7, 9, 53, 3],
            pi: [Some(4), Some(3), Some(1), Some(3)],
        },
        UepProfile {
            bitrate: 96,
            level: 4,
            l: [7, 10, 52, 3],
            pi: [Some(8), Some(5), Some(3), Some(5)],
        },
        UepProfile {
            bitrate: 96,
            level: 3,
            l: [6, 12, 51, 3],
            pi: [Some(15), Some(8), Some(5), Some(9)],
        },
        UepProfile {
            bitrate: 96,
            level: 2,
            l: [6, 10, 53, 3],
            pi: [Some(21), Some(11), Some(8), Some(11)],
        },
        UepProfile {
            bitrate: 96,
            level: 1,
            l: [6, 13, 50, 3],
            pi: [Some(23), Some(17), Some(12), Some(18)],
        },
        UepProfile {
            bitrate: 112,
            level: 5,
            l: [14, 17, 50, 3],
            pi: [Some(4), Some(3), Some(1), Some(4)],
        },
        UepProfile {
            bitrate: 112,
            level: 4,
            l: [11, 21, 49, 3],
            pi: [Some(8), Some(5), Some(3), Some(7)],
        },
        UepProfile {
            bitrate: 112,
            level: 3,
            l: [11, 23, 47, 3],
            pi: [Some(15), Some(7), Some(5), Some(8)],
        },
        UepProfile {
            bitrate: 112,
            level: 2,
            l: [11, 21, 49, 3],
            pi: [Some(22), Some(11), Some(8), Some(13)],
        },
        UepProfile {
            bitrate: 128,
            level: 5,
            l: [12, 19, 62, 3],
            pi: [Some(4), Some(2), Some(1), Some(3)],
        },
        UepProfile {
            bitrate: 128,
            level: 4,
            l: [11, 21, 61, 3],
            pi: [Some(10), Some(5), Some(4), Some(6)],
        },
        UepProfile {
            bitrate: 128,
            level: 3,
            l: [11, 22, 60, 3],
            pi: [Some(15), Some(8), Some(5), Some(9)],
        },
        UepProfile {
            bitrate: 128,
            level: 2,
            l: [11, 21, 61, 3],
            pi: [Some(21), Some(11), Some(8), Some(13)],
        },
        UepProfile {
            bitrate: 128,
            level: 1,
            l: [11, 20, 62, 3],
            pi: [Some(23), Some(16), Some(12), Some(18)],
        },
        UepProfile {
            bitrate: 160,
            level: 5,
            l: [11, 19, 87, 3],
            pi: [Some(4), Some(3), Some(1), Some(3)],
        },
        UepProfile {
            bitrate: 160,
            level: 4,
            l: [11, 23, 83, 3],
            pi: [Some(10), Some(5), Some(4), Some(8)],
        },
        UepProfile {
            bitrate: 160,
            level: 3,
            l: [11, 24, 82, 3],
            pi: [Some(15), Some(7), Some(5), Some(10)],
        },
        UepProfile {
            bitrate: 160,
            level: 2,
            l: [11, 21, 85, 3],
            pi: [Some(21), Some(10), Some(8), Some(12)],
        },
        UepProfile {
            bitrate: 160,
            level: 1,
            l: [11, 22, 84, 3],
            pi: [Some(23), Some(17), Some(11), Some(18)],
        },
        UepProfile {
            bitrate: 192,
            level: 5,
            l: [11, 20, 110, 3],
            pi: [Some(5), Some(3), Some(1), Some(4)],
        },
        UepProfile {
            bitrate: 192,
            level: 4,
            l: [11, 22, 108, 3],
            pi: [Some(9), Some(5), Some(3), Some(8)],
        },
        UepProfile {
            bitrate: 192,
            level: 3,
            l: [11, 24, 106, 3],
            pi: [Some(15), Some(9), Some(5), Some(10)],
        },
        UepProfile {
            bitrate: 192,
            level: 2,
            l: [11, 20, 110, 3],
            pi: [Some(21), Some(12), Some(8), Some(12)],
        },
        UepProfile {
            bitrate: 192,
            level: 1,
            l: [11, 21, 109, 3],
            pi: [Some(23), Some(19), Some(12), Some(23)],
        },
        UepProfile {
            bitrate: 224,
            level: 5,
            l: [12, 22, 131, 3],
            pi: [Some(7), Some(5), Some(1), Some(5)],
        },
        UepProfile {
            bitrate: 224,
            level: 4,
            l: [12, 26, 127, 3],
            pi: [Some(11), Some(7), Some(3), Some(10)],
        },
        UepProfile {
            bitrate: 224,
            level: 3,
            l: [11, 20, 134, 3],
            pi: [Some(15), Some(9), Some(6), Some(8)],
        },
        UepProfile {
            bitrate: 224,
            level: 2,
            l: [11, 22, 132, 3],
            pi: [Some(23), Some(15), Some(9), Some(14)],
        },
        UepProfile {
            bitrate: 224,
            level: 1,
            l: [11, 24, 130, 3],
            pi: [Some(23), Some(19), Some(11), Some(19)],
        },
        UepProfile {
            bitrate: 256,
            level: 5,
            l: [11, 24, 154, 3],
            pi: [Some(5), Some(4), Some(1), Some(4)],
        },
        UepProfile {
            bitrate: 256,
            level: 4,
            l: [11, 24, 154, 3],
            pi: [Some(11), Some(8), Some(4), Some(9)],
        },
        UepProfile {
            bitrate: 256,
            level: 3,
            l: [11, 27, 151, 3],
            pi: [Some(15), Some(9), Some(6), Some(9)],
        },
        UepProfile {
            bitrate: 256,
            level: 2,
            l: [11, 22, 156, 3],
            pi: [Some(23), Some(13), Some(9), Some(12)],
        },
        UepProfile {
            bitrate: 256,
            level: 1,
            l: [11, 26, 152, 3],
            pi: [Some(23), Some(18), Some(13), Some(17)],
        },
        UepProfile {
            bitrate: 320,
            level: 5,
            l: [11, 26, 200, 3],
            pi: [Some(7), Some(4), Some(1), Some(5)],
        },
        UepProfile {
            bitrate: 320,
            level: 4,
            l: [11, 25, 201, 3],
            pi: [Some(12), Some(8), Some(4), Some(9)],
        },
        UepProfile {
            bitrate: 320,
            level: 2,
            l: [11, 26, 200, 3],
            pi: [Some(23), Some(16), Some(8), Some(16)],
        },
        UepProfile {
            bitrate: 384,
            level: 5,
            l: [11, 27, 247, 3],
            pi: [Some(7), Some(5), Some(1), Some(6)],
        },
        UepProfile {
            bitrate: 384,
            level: 3,
            l: [11, 24, 250, 3],
            pi: [Some(15), Some(8), Some(6), Some(9)],
        },
        UepProfile {
            bitrate: 384,
            level: 1,
            l: [12, 28, 245, 3],
            pi: [Some(23), Some(19), Some(13), Some(22)],
        },
    ]
}

/// The standardized UEP profile table, in the order of Table 15.
pub fn uep_profiles() -> (t: [UepProfile; 64])
    ensures
        t@ == spec_uep_profiles(),
{
    [
        UepProfile {
            bitrate: 32,
            level: 5,
            l: [3, 4, 17, 0],
            pi: [Some(4), Some(2), Some(1), None],
        },
        UepProfile {
            bitrate: 32,
            level: 4,
            l: [3, 3, 18, 0],
            pi: [Some(10), Some(5), Some(4), None],
        },
        UepProfile {
            bitrate: 32,
            level: 3,
            l: [3, 4, 14, 3],
            pi: [Some(14), Some(8), Some(5), Some(7)],
        },
        UepProfile {
            bitrate: 32,
            level: 2,
            l: [3, 4, 14, 3],
            pi: [Some(21), Some(12), Some(7), Some(12)],
        },
        UepProfile {
            bitrate: 32,
            level: 1,
            l: [3, 5, 13, 3],
            pi: [Some(23), Some(16), Some(11), Some(16)],
        },
        UepProfile {
            bitrate: 48,
            level: 5,
            l: [4, 3, 26, 3],
            pi: [Some(4), Some(3), Some(1), Some(2)],
        },
        UepProfile {
            bitrate: 48,
            level: 4,
            l: [3, 4, 26, 3],
            pi: [Some(8), Some(5), Some(3), Some(5)],
        },
        UepProfile {
            bitrate: 48,
            level: 3,
            l: [3, 4, 26, 3],
            pi: [Some(14), Some(9), Some(5), Some(8)],
        },
        UepProfile {
            bitrate: 48,
            level: 2,
            l: [3, 4, 26, 3],
            pi: [Some(23), Some(13), Some(7), Some(14)],
        },
        UepProfile {
            bitrate: 48,
            level: 1,
            l: [3, 5, 25, 3],
            pi: [Some(23), Some(17), Some(12), Some(17)],
        },
        UepProfile {
            bitrate: 56,
            level: 5,
            l: [6, 10, 23, 3],
            pi: [Some(4), Some(3), Some(1), Some(2)],
        },
        UepProfile {
            bitrate: 56,
            level: 4,
            l: [6, 10, 23, 3],
            pi: [Some(8), Some(5), Some(3), Some(4)],
        },
        UepProfile {
            bitrate: 56,
            level: 3,
            l: [6, 12, 21, 3],
            pi: [Some(15), Some(6), Some(5), Some(8)],
        },
        UepProfile {
            bitrate: 56,
            level: 2,
            l: [6, 10, 23, 3],
            pi: [Some(22), Some(12), Some(7), Some(12)],
        },
        UepProfile {
            bitrate: 64,
            level: 5,
            l: [6, 9, 31, 2],
            pi: [Some(4), Some(2), Some(1), Some(2)],
        },
        UepProfile {
            bitrate: 64,
            level: 4,
            l: [6, 9, 33, 0],
            pi: [Some(10), Some(5), Some(4), None],
        },
        UepProfile {
            bitrate: 64,
            level: 3,
            l: [6, 12, 27, 3],
            pi: [Some(15), Some(7), Some(5), Some(8)],
        },
        UepProfile {
            bitrate: 64,
            level: 2,
            l: [6, 10, 29, 3],
            pi: [Some(22), Some(12), Some(7), Some(12)],
        },
        UepProfile {
            bitrate: 64,
            level: 1,
            l: [6, 11, 28, 3],
            pi: [Some(23), Some(17), Some(11), Some(17)],
        },
        UepProfile {
            bitrate: 80,
            level: 5,
            l: [6, 10, 41, 3],
            pi: [Some(5), Some(2), Some(1), Some(2)],
        },
        UepProfile {
            bitrate: 80,
            level: 4,
            l: [6, 10, 41, 3],
            pi: [Some(10), Some(5), Some(4), Some(5)],
        },
        UepProfile {
            bitrate: 80,
            level: 3,
            l: [6, 11, 40, 3],
            pi: [Some(15), Some(7), Some(5), Some(6)],
        },
        UepProfile {
            bitrate: 80,
            level: 2,
            l: [6, 10, 41, 3],
            pi: [Some(22), Some(12), Some(7), Some(12)],
        },
        UepProfile {
            bitrate: 80,
            level: 1,
            l: [6, 10, 41, 3],
            pi: [Some(23), Some(16), Some(11), Some(17)],
        },
        UepProfile {
            bitrate: 96,
            level: 5,
            l: [7, 9, 53, 3],
            pi: [Some(4), Some(3), Some(1), Some(3)],
        },
        UepProfile {
            bitrate: 96,
            level: 4,
            l: [7, 10, 52, 3],
            pi: [Some(8), Some(5), Some(3), Some(5)],
        },
        UepProfile {
            bitrate: 96,
            level: 3,
            l: [6, 12, 51, 3],
            pi: [Some(15), Some(8), Some(5), Some(9)],
        },
        UepProfile {
            bitrate: 96,
            level: 2,
            l: [6, 10, 53, 3],
            pi: [Some(21), Some(11), Some(8), Some(11)],
        },
        UepProfile {
            bitrate: 96,
            level: 1,
            l: [6, 13, 50, 3],
            pi: [Some(23), Some(17), Some(12), Some(18)],
        },
        UepProfile {
            bitrate: 112,
            level: 5,
            l: [14, 17, 50, 3],
            pi: [Some(4), Some(3), Some(1), Some(4)],
        },
        UepProfile {
            bitrate: 112,
            level: 4,
            l: [11, 21, 49, 3],
            pi: [Some(8), Some(5), Some(3), Some(7)],
        },
        UepProfile {
            bitrate: 112,
            level: 3,
            l: [11, 23, 47, 3],
            pi: [Some(15), Some(7), Some(5), Some(8)],
        },
        UepProfile {
            bitrate: 112,
            level: 2,
            l: [11, 21, 49, 3],
            pi: [Some(22), Some(11), Some(8), Some(13)],
        },
        UepProfile {
            bitrate: 128,
            level: 5,
            l: [12, 19, 62, 3],
            pi: [Some(4), Some(2), Some(1), Some(3)],
        },
        UepProfile {
            bitrate: 128,
            level: 4,
            l: [11, 21, 61, 3],
            pi: [Some(10), Some(5), Some(4), Some(6)],
        },
        UepProfile {
            bitrate: 128,
            level: 3,
            l: [11, 22, 60, 3],
            pi: [Some(15), Some(8), Some(5), Some(9)],
        },
        UepProfile {
            bitrate: 128,
            level: 2,
            l: [11, 21, 61, 3],
            pi: [Some(21), Some(11), Some(8), Some(13)],
        },
        UepProfile {
            bitrate: 128,
            level: 1,
            l: [11, 20, 62, 3],
            pi: [Some(23), Some(16), Some(12), Some(18)],
        },
        UepProfile {
            bitrate: 160,
            level: 5,
            l: [11, 19, 87, 3],
            pi: [Some(4), Some(3), Some(1), Some(3)],
        },
        UepProfile {
            bitrate: 160,
            level: 4,
            l: [11, 23, 83, 3],
            pi: [Some(10), Some(5), Some(4), Some(8)],
        },
        UepProfile {
            bitrate: 160,
            level: 3,
            l: [11, 24, 82, 3],
            pi: [Some(15), Some(7), Some(5), Some(10)],
        },
        UepProfile {
            bitrate: 160,
            level: 2,
            l: [11, 21, 85, 3],
            pi: [Some(21), Some(10), Some(8), Some(12)],
        },
        UepProfile {
            bitrate: 160,
            level: 1,
            l: [11, 22, 84, 3],
            pi: [Some(23), Some(17), Some(11), Some(18)],
        },
        UepProfile {
            bitrate: 192,
            level: 5,
            l: [11, 20, 110, 3],
            pi: [Some(5), Some(3), Some(1), Some(4)],
        },
        UepProfile {
            bitrate: 192,
            level: 4,
            l: [11, 22, 108, 3],
            pi: [Some(9), Some(5), Some(3), Some(8)],
        },
        UepProfile {
            bitrate: 192,
            level: 3,
            l: [11, 24, 106, 3],
            pi: [Some(15), Some(9), Some(5), Some(10)],
        },
        UepProfile {
            bitrate: 192,
            level: 2,
            l: [11, 20, 110, 3],
            pi: [Some(21), Some(12), Some(8), Some(12)],
        },
        UepProfile {
            bitrate: 192,
            level: 1,
            l: [11, 21, 109, 3],
            pi: [Some(23), Some(19), Some(12), Some(23)],
        },
        UepProfile {
            bitrate: 224,
            level: 5,
            l: [12, 22, 131, 3],
            pi: [Some(7), Some(5), Some(1), Some(5)],
        },
        UepProfile {
            bitrate: 224,
            level: 4,
            l: [12, 26, 127, 3],
            pi: [Some(11), Some(7), Some(3), Some(10)],
        },
        UepProfile {
            bitrate: 224,
            level: 3,
            l: [11, 20, 134, 3],
            pi: [Some(15), Some(9), Some(6), Some(8)],
        },
        UepProfile {
            bitrate: 224,
            level: 2,
            l: [11, 22, 132, 3],
            pi: [Some(23), Some(15), Some(9), Some(14)],
        },
        UepProfile {
            bitrate: 224,
            level: 1,
            l: [11, 24, 130, 3],
            pi: [Some(23), Some(19), Some(11), Some(19)],
        },
        UepProfile {
            bitrate: 256,
            level: 5,
            l: [11, 24, 154, 3],
            pi: [Some(5), Some(4), Some(1), Some(4)],
        },
        UepProfile {
            bitrate: 256,
            level: 4,
            l: [11, 24, 154, 3],
            pi: [Some(11), Some(8), Some(4), Some(9)],
        },
        UepProfile {
            bitrate: 256,
            level: 3,
            l: [11, 27, 151, 3],
            pi: [Some(15), Some(9), Some(6), Some(9)],
        },
        UepProfile {
            bitrate: 256,
            level: 2,
            l: [11, 22, 156, 3],
            pi: [Some(23), Some(13), Some(9), Some(12)],
        },
        UepProfile {
            bitrate: 256,
            level: 1,
            l: [11, 26, 152, 3],
            pi: [Some(23), Some(18), Some(13), Some(17)],
        },
        UepProfile {
            bitrate: 320,
            level: 5,
            l: [11, 26, 200, 3],
            pi: [Some(7), Some(4), Some(1), Some(5)],
        },
        UepProfile {
            bitrate: 320,
            level: 4,
            l: [11, 25, 201, 3],
            pi: [Some(12), Some(8), Some(4), Some(9)],
        },
        UepProfile {
            bitrate: 320,
            level: 2,
            l: [11, 26, 200, 3],
            pi: [Some(23), Some(16), Some(8), Some(16)],
        },
        UepProfile {
            bitrate: 384,
            level: 5,
            l: [11, 27, 247, 3],
            pi: [Some(7), Some(5), Some(1), Some(6)],
        },
        UepProfile {
            bitrate: 384,
            level: 3,
            l: [11, 24, 250, 3],
            pi: [Some(15), Some(8), Some(6), Some(9)],
        },
        UepProfile {
            bitrate: 384,
            level: 1,
            l: [12, 28, 245, 3],
            pi: [Some(23), Some(19), Some(13), Some(22)],
        },
    ]
}


// ---------------------------------------------------------------------------
// Mathematical model of a UEP frame
// ---------------------------------------------------------------------------

/// Blocks in regions `0 .. r`.
pub open spec fn blocks_upto(p: UepProfile, r: int) -> int
    decreases r,
{
    if r <= 0 {
        0
    } else {
        blocks_upto(p, r - 1) + p.l@[r - 1]
    }
}

/// Total number of 128-bit blocks of a profile.
pub open spec fn spec_blocks_total(p: UepProfile) -> int {
    p.l@[0] + p.l@[1] + p.l@[2] + p.l@[3]
}

/// A non-empty region names one of the 24 puncturing vectors.
pub open spec fn region_valid(p: UepProfile, r: int) -> bool {
    p.l@[r] > 0 ==> (p.pi@[r] is Some && p.pi@[r].unwrap() < 24)
}

/// A profile that the depuncturer can process without running out of
/// puncturing vectors or machine integers.
pub open spec fn profile_valid(p: UepProfile) -> bool {
    &&& forall|r: int| 0 <= r < 4 ==> #[trigger] region_valid(p, r)
    &&& spec_blocks_total(p) * 128 + 24 <= usize::MAX
}

/// `n` copies of `s`, one after another.
pub open spec fn repeat(s: Seq<u8>, n: nat) -> Seq<u8>
    decreases n,
{
    if n == 0 {
        seq![]
    } else {
        repeat(s, (n - 1) as nat) + s
    }
}

/// Keep flags of region `r`: its puncturing vector once per 32 mother-code bits.
pub open spec fn region_mask(p: UepProfile, r: int) -> Seq<u8> {
    if p.l@[r] == 0 {
        seq![]
    } else {
        repeat(P_CODES@[p.pi@[r].unwrap() as int]@, (4 * p.l@[r]) as nat)
    }
}

/// Keep flags of regions `0 .. r`.
pub open spec fn regions_upto(p: UepProfile, r: int) -> Seq<u8>
    decreases r,
{
    if r <= 0 {
        seq![]
    } else {
        regions_upto(p, r - 1) + region_mask(p, r - 1)
    }
}

/// Keep flags of a whole logical frame, one per mother-code bit.
pub open spec fn frame_mask(p: UepProfile) -> Seq<u8> {
    regions_upto(p, 4) + PI_TAIL@
}

/// Transmitted soft bits per logical frame.
pub open spec fn spec_punctured_size(p: UepProfile) -> nat {
    count_ones(frame_mask(p))
}

/// Soft bit `k` of the input, or an erasure (0) past its end.
pub open spec fn soft_at(soft: Seq<i8>, k: int) -> i8 {
    if 0 <= k < soft.len() {
        soft[k]
    } else {
        0
    }
}

/// Mother-code bit `j` after depuncturing: a kept position takes the next
/// unread soft bit, a punctured position is an erasure (0).
pub open spec fn depunctured_at(mask: Seq<u8>, soft: Seq<i8>, j: int) -> i8 {
    if mask[j] != 0 {
        soft_at(soft, count_ones(mask.take(j)) as int)
    } else {
        0
    }
}

/// `out` is the depuncturing of `soft` under the flags `mask`.
pub open spec fn depunctured(out: Seq<i8>, mask: Seq<u8>, soft: Seq<i8>) -> bool {
    &&& out.len() == mask.len()
    &&& forall|j: int| 0 <= j < out.len() ==> #[trigger] out[j] == depunctured_at(mask, soft, j)
}

/// The soft bits that survive puncturing of a mother-code sequence.
pub open spec fn puncture(mother: Seq<i8>, mask: Seq<u8>) -> Seq<i8>
    decreases mask.len(),
{
    if mask.len() == 0 {
        seq![]
    } else {
        let prev = puncture(mother, mask.drop_last());
        if mask.last() != 0 {
            prev.push(mother[mask.len() - 1])
        } else {
            prev
        }
    }
}

// ---------------------------------------------------------------------------
// Lemmas on keep flags
// ---------------------------------------------------------------------------

proof fn lemma_count_ones_push(s: Seq<u8>, x: u8)
    ensures
        count_ones(s.push(x)) == count_ones(s) + if x != 0 { 1nat } else { 0nat },
{
    assert(s.push(x).drop_last() =~= s);
}

proof fn lemma_count_ones_append(a: Seq<u8>, b: Seq<u8>)
    ensures
        count_ones(a + b) == count_ones(a) + count_ones(b),
    decreases b.len(),
{
    if b.len() == 0 {
        assert(a + b =~= a);
    } else {
        lemma_count_ones_append(a, b.drop_last());
        assert((a + b).drop_last() =~= a + b.drop_last());
    }
}

proof fn lemma_count_ones_le_len(s: Seq<u8>)
    ensures
        count_ones(s) <= s.len(),
    decreases s.len(),
{
    if s.len() > 0 {
        lemma_count_ones_le_len(s.drop_last());
    }
}

proof fn lemma_repeat(s: Seq<u8>, n: nat)
    ensures
        repeat(s, n).len() == n * s.len(),
        count_ones(repeat(s, n)) == n * count_ones(s),
    decreases n,
{
    if n > 0 {
        lemma_repeat(s, (n - 1) as nat);
        lemma_count_ones_append(repeat(s, (n - 1) as nat), s);
        let m = (n - 1) as nat;
        assert(m * s.len() + s.len() == n * s.len()) by (nonlinear_arith)
            requires
                m + 1 == n,
        ;
        assert(m * count_ones(s) + count_ones(s) == n * count_ones(s)) by (nonlinear_arith)
            requires
                m + 1 == n,
        ;
    }
}

/// Size and kept-bit count of one region.
proof fn lemma_region(p: UepProfile, r: int)
    requires
        0 <= r < 4,
        region_valid(p, r),
    ensures
        region_mask(p, r).len() == 128 * p.l@[r],
        p.l@[r] > 0 ==> count_ones(region_mask(p, r)) == 4 * p.l@[r] * (9 + p.pi@[r].unwrap()),
        p.l@[r] == 0 ==> count_ones(region_mask(p, r)) == 0,
{
    if p.l@[r] > 0 {
        let i = p.pi@[r].unwrap() as int;
        lemma_p_code_ones(i);
        lemma_repeat(P_CODES@[i]@, (4 * p.l@[r]) as nat);
        assert(P_CODES@[i]@.len() == 32);
        assert((4 * p.l@[r]) * 32 == 128 * p.l@[r]) by (nonlinear_arith);
    }
}

proof fn lemma_regions_upto(p: UepProfile, r: int)
    requires
        0 <= r <= 4,
        forall|k: int| 0 <= k < 4 ==> #[trigger] region_valid(p, k),
    ensures
        regions_upto(p, r).len() == 128 * blocks_upto(p, r),
        count_ones(regions_upto(p, r)) <= regions_upto(p, r).len(),
    decreases r,
{
    lemma_count_ones_le_len(regions_upto(p, r));
    if r > 0 {
        lemma_regions_upto(p, r - 1);
        lemma_region(p, r - 1);
    }
}

/// Size of a frame's mother code and of its transmitted part, in closed form.
pub proof fn lemma_frame_mask(p: UepProfile)
    requires
        profile_valid(p),
    ensures
        frame_mask(p).len() == spec_blocks_total(p) * 128 + 24,
        spec_punctured_size(p) == region_ones(p, 0) + region_ones(p, 1) + region_ones(p, 2)
            + region_ones(p, 3) + 12,
        spec_punctured_size(p) <= frame_mask(p).len(),
{
    lemma_regions_upto(p, 4);
    lemma_tail_ones();
    reveal_with_fuel(blocks_upto, 5);
    reveal_with_fuel(regions_upto, 5);
    let r0 = region_mask(p, 0);
    let r1 = region_mask(p, 1);
    let r2 = region_mask(p, 2);
    let r3 = region_mask(p, 3);
    assert(regions_upto(p, 4) =~= (((seq![] + r0) + r1) + r2) + r3);
    assert(seq![] + r0 =~= r0);
    lemma_count_ones_append(r0, r1);
    lemma_count_ones_append(r0 + r1, r2);
    lemma_count_ones_append(r0 + r1 + r2, r3);
    lemma_count_ones_append(regions_upto(p, 4), PI_TAIL@);
    assert(region_valid(p, 0));
    assert(region_valid(p, 1));
    assert(region_valid(p, 2));
    assert(region_valid(p, 3));
    lemma_region(p, 0);
    lemma_region(p, 1);
    lemma_region(p, 2);
    lemma_region(p, 3);
    lemma_count_ones_le_len(frame_mask(p));
}

/// Transmitted bits of region `r`: four times its block count per kept bit of
/// its puncturing vector (PI_x keeps `8 + x` of 32 bits).
pub open spec fn region_ones(p: UepProfile, r: int) -> int {
    if p.l@[r] == 0 {
        0
    } else {
        4 * p.l@[r] * (9 + p.pi@[r].unwrap())
    }
}

/// Appending one mother-code bit keeps the depuncturing relation.
proof fn lemma_depunctured_push(out: Seq<i8>, mask: Seq<u8>, soft: Seq<i8>, flag: u8, v: i8)
    requires
        depunctured(out, mask, soft),
        v == (if flag != 0 { soft_at(soft, count_ones(mask) as int) } else { 0i8 }),
    ensures
        depunctured(out.push(v), mask.push(flag), soft),
{
    let m2 = mask.push(flag);
    let o2 = out.push(v);
    assert forall|j: int| 0 <= j < o2.len() implies #[trigger] o2[j] == depunctured_at(m2, soft, j) by {
        if j < out.len() {
            assert(m2.take(j) =~= mask.take(j));
            assert(out[j] == depunctured_at(mask, soft, j));
        } else {
            assert(m2.take(j) =~= mask);
        }
    }
}

// ---------------------------------------------------------------------------
// Executable functions
// ---------------------------------------------------------------------------

/// Find the UEP channel-coding profile for a parsed short-form subchannel.
pub open spec fn find_profile(table: Seq<UepProfile>, bitrate: u16, level: u8, i: int) -> Option<UepProfile>
    decreases table.len() - i,
{
    if i < 0 || i >= table.len() {
        None
    } else if table[i].bitrate == bitrate && table[i].level == level {
        Some(table[i])
    } else {
        find_profile(table, bitrate, level, i + 1)
    }
}

/// Find the UEP channel-coding profile for a parsed short-form subchannel:
/// the first row of the standard table with this bitrate and level.
pub fn profile(bitrate: u16, level: u8) -> (r: Option<UepProfile>)
    ensures
        r == find_profile(spec_uep_profiles(), bitrate, level, 0),
        r matches Some(p) ==> p.bitrate == bitrate && p.level == level && row_consistent(p),
{
    let table = uep_profiles();
    let mut i: usize = 0;
    while i < 64
        invariant
            0 <= i <= 64,
            table@ == spec_uep_profiles(),
            find_profile(table@, bitrate, level, 0) == find_profile(table@, bitrate, level, i as int),
        decreases 64 - i,
    {
        let p = table[i];
        if p.bitrate == bitrate && p.level == level {
            proof {
                lemma_table_row(i as int);
            }
            return Some(p);
        }
        i += 1;
    }
    None
}

/// Transmitted bits of `blocks` blocks punctured with vector `pi`.
fn punctured_bits_for_region(blocks: usize, pi: usize) -> (n: usize)
    requires
        pi < 24,
        blocks * 128 <= usize::MAX,
    ensures
        n == count_ones(repeat(P_CODES@[pi as int]@, (4 * blocks) as nat)),
        n == 4 * blocks * (9 + pi),
{
    let pattern = P_CODES[pi];
    let mut ones: usize = 0;
    let mut k: usize = 0;
    while k < 32
        invariant
            0 <= k <= 32,
            pattern@ == P_CODES@[pi as int]@,
            pattern@.len() == 32,
            ones == count_ones(pattern@.take(k as int)),
            ones <= k,
        decreases 32 - k,
    {
        proof {
            assert(pattern@.take(k + 1) =~= pattern@.take(k as int).push(pattern@[k as int]));
            lemma_count_ones_push(pattern@.take(k as int), pattern@[k as int]);
        }
        if pattern[k] != 0 {
            ones += 1;
        }
        k += 1;
    }
    proof {
        assert(pattern@.take(32) =~= pattern@);
        lemma_p_code_ones(pi as int);
        lemma_repeat(pattern@, (4 * blocks) as nat);
        assert(blocks * 4 * ones <= blocks * 128) by (nonlinear_arith)
            requires
                ones <= 32,
        ;
    }
    blocks * 4 * ones
}

/// Number of transmitted soft bits consumed by a UEP profile.
pub fn punctured_size(p: &UepProfile) -> (n: usize)
    requires
        profile_valid(*p),
    ensures
        n == spec_punctured_size(*p),
{
    proof {
        lemma_frame_mask(*p);
        lemma_regions_upto(*p, 4);
        lemma_tail_ones();
    }
    let mut total: usize = 0;
    let mut r: usize = 0;
    while r < 4
        invariant
            0 <= r <= 4,
            profile_valid(*p),
            total == count_ones(regions_upto(*p, r as int)),
            total <= 128 * blocks_upto(*p, r as int),
            blocks_upto(*p, 4) == spec_blocks_total(*p),
        decreases 4 - r,
    {
        proof {
            assert(region_valid(*p, r as int));
            lemma_region(*p, r as int);
            lemma_count_ones_append(regions_upto(*p, r as int), region_mask(*p, r as int));
            lemma_count_ones_le_len(region_mask(*p, r as int));
            lemma_blocks_upto_le(*p, r as int + 1);
            assert(regions_upto(*p, r + 1) == regions_upto(*p, r as int) + region_mask(*p, r as int));
            assert(blocks_upto(*p, r + 1) == blocks_upto(*p, r as int) + p.l@[r as int]);
        }
        let blocks = p.l[r];
        if blocks != 0 {
            let pi = p.pi[r].unwrap();
            total = total + punctured_bits_for_region(blocks, pi);
        }
        r += 1;
    }
    proof {
        lemma_count_ones_append(regions_upto(*p, 4), PI_TAIL@);
    }
    total + 12
}

/// Blocks of a prefix of regions never exceed the total.
proof fn lemma_blocks_upto_le(p: UepProfile, r: int)
    requires
        0 <= r <= 4,
    ensures
        0 <= blocks_upto(p, r) <= blocks_upto(p, 4),
        blocks_upto(p, 4) == spec_blocks_total(p),
{
    reveal_with_fuel(blocks_upto, 5);
}

/// Mother-code soft-bit count after depuncturing, including the 24 tail bits.
pub fn depunctured_size(p: &UepProfile) -> (n: usize)
    requires
        spec_blocks_total(*p) * 128 + 24 <= usize::MAX,
    ensures
        n == spec_blocks_total(*p) * 128 + 24,
{
    (p.l[0] + p.l[1] + p.l[2] + p.l[3]) * 128 + 24
}

/// Depuncture one UEP-protected MSC logical frame.
///
/// The output holds one soft bit per mother-code bit: kept positions take
/// the input soft bits in order (an erasure once the input runs out) and
/// punctured positions are erasures.
pub fn depuncture(soft_bits: &[i8], p: &UepProfile) -> (out: Vec<i8>)
    requires
        profile_valid(*p),
    ensures
        depunctured(out@, frame_mask(*p), soft_bits@),
        out@.len() == spec_blocks_total(*p) * 128 + 24,
{
    proof {
        lemma_frame_mask(*p);
        lemma_regions_upto(*p, 4);
        lemma_blocks_upto_le(*p, 0);
    }
    let mut out: Vec<i8> = Vec::with_capacity(depunctured_size(p));
    let mut read: usize = 0;
    let ghost mut done: Seq<u8> = seq![];
    let mut r: usize = 0;
    while r < 4
        invariant
            0 <= r <= 4,
            profile_valid(*p),
            done == regions_upto(*p, r as int),
            done.len() == 128 * blocks_upto(*p, r as int),
            blocks_upto(*p, 4) == spec_blocks_total(*p),
            depunctured(out@, done, soft_bits@),
            read == count_ones(done),
        decreases 4 - r,
    {
        proof {
            assert(region_valid(*p, r as int));
            lemma_region(*p, r as int);
            lemma_blocks_upto_le(*p, r as int + 1);
            assert(regions_upto(*p, r + 1) == regions_upto(*p, r as int) + region_mask(*p, r as int));
            assert(blocks_upto(*p, r + 1) == blocks_upto(*p, r as int) + p.l@[r as int]);
        }
        let blocks = p.l[r];
        if blocks == 0 {
            proof {
                assert(done + region_mask(*p, r as int) =~= done);
            }
        } else {
            let pi = p.pi[r].unwrap();
            let pattern = P_CODES[pi];
            let ghost pat = pattern@;
            let ghost base = done;
            assert(pat.len() == 32);
            let mut b: usize = 0;
            while b < blocks
                invariant
                    0 <= b <= blocks,
                    blocks == p.l@[r as int],
                    pat == pattern@,
                    pat.len() == 32,
                    done == base + repeat(pat, 4 * b as nat),
                    base.len() == 128 * blocks_upto(*p, r as int),
                    blocks_upto(*p, r as int) + blocks <= spec_blocks_total(*p),
                    spec_blocks_total(*p) * 128 + 24 <= usize::MAX,
                    depunctured(out@, done, soft_bits@),
                    read == count_ones(done),
                decreases blocks - b,
            {
                let mut q: usize = 0;
                while q < 4
                    invariant
                        0 <= q <= 4,
                        0 <= b < blocks,
                        blocks == p.l@[r as int],
                        pat == pattern@,
                        pat.len() == 32,
                        done == base + repeat(pat, (4 * b + q) as nat),
                        base.len() == 128 * blocks_upto(*p, r as int),
                        blocks_upto(*p, r as int) + blocks <= spec_blocks_total(*p),
                        spec_blocks_total(*p) * 128 + 24 <= usize::MAX,
                        depunctured(out@, done, soft_bits@),
                        read == count_ones(done),
                    decreases 4 - q,
                {
                    let ghost before = done;
                    proof {
                        lemma_repeat(pat, (4 * b + q) as nat);
                        lemma_count_ones_le_len(done);
                        assert(done.len() == base.len() + 32 * (4 * b + q)) by (nonlinear_arith)
                            requires
                                done.len() == base.len() + (4 * b + q) * pat.len(),
                                pat.len() == 32,
                        ;
                        assert(done.len() + 32 <= 128 * blocks_upto(*p, r as int) + 128 * blocks);
                        assert(done.len() + 32 <= usize::MAX);
                    }
                    let mut k: usize = 0;
                    while k < 32
                        invariant
                            0 <= k <= 32,
                            pat == pattern@,
                            pat.len() == 32,
                            done == before + pat.take(k as int),
                            before.len() + 32 <= usize::MAX,
                            depunctured(out@, done, soft_bits@),
                            read == count_ones(done),
                        decreases 32 - k,
                    {
                        let keep = pattern[k];
                        proof {
                            lemma_count_ones_le_len(done);
                        }
                        let v: i8 = if keep != 0 {
                            let x = if read < soft_bits.len() { soft_bits[read] } else { 0 };
                            read += 1;
                            x
                        } else {
                            0
                        };
                        proof {
                            lemma_depunctured_push(out@, done, soft_bits@, keep, v);
                            lemma_count_ones_push(done, keep);
                            assert(pat.take(k + 1) =~= pat.take(k as int).push(keep));
                            assert(before + pat.take(k + 1) =~= (before + pat.take(k as int)).push(keep));
                            done = done.push(keep);
                        }
                        out.push(v);
                        k += 1;
                    }
                    proof {
                        assert(pat.take(32) =~= pat);
                        assert(repeat(pat, (4 * b + q + 1) as nat) == repeat(pat, (4 * b + q) as nat) + pat);
                        assert(base + repeat(pat, (4 * b + q) as nat) + pat =~= base + (repeat(pat, (4 * b + q) as nat) + pat));
                    }
                    q += 1;
                }
                b += 1;
            }
            proof {
                assert(region_mask(*p, r as int) == repeat(pat, (4 * blocks) as nat));
            }
        }
        r += 1;
    }
    let ghost before = done;
    proof {
        lemma_tail_ones();
        lemma_count_ones_le_len(done);
    }
    let mut k: usize = 0;
    while k < 24
        invariant
            0 <= k <= 24,
            PI_TAIL@.len() == 24,
            before == regions_upto(*p, 4),
            before.len() + 24 <= usize::MAX,
            done == before + PI_TAIL@.take(k as int),
            depunctured(out@, done, soft_bits@),
            read == count_ones(done),
        decreases 24 - k,
    {
        let keep = PI_TAIL[k];
        proof {
            lemma_count_ones_le_len(done);
        }
        let v: i8 = if keep != 0 {
            let x = if read < soft_bits.len() { soft_bits[read] } else { 0 };
            read += 1;
            x
        } else {
            0
        };
        proof {
            lemma_depunctured_push(out@, done, soft_bits@, keep, v);
            lemma_count_ones_push(done, keep);
            assert(PI_TAIL@.take(k + 1) =~= PI_TAIL@.take(k as int).push(keep));
            assert(before + PI_TAIL@.take(k + 1) =~= (before + PI_TAIL@.take(k as int)).push(keep));
            done = done.push(keep);
        }
        out.push(v);
        k += 1;
    }
    proof {
        assert(PI_TAIL@.take(24) =~= PI_TAIL@);
    }
    out
}

// ---------------------------------------------------------------------------
// Laws
// ---------------------------------------------------------------------------

proof fn lemma_count_ones_prefix(mask: Seq<u8>, n: int)
    requires
        0 <= n <= mask.len(),
    ensures
        count_ones(mask.take(n)) <= count_ones(mask),
{
    assert(mask =~= mask.take(n) + mask.skip(n));
    lemma_count_ones_append(mask.take(n), mask.skip(n));
}

proof fn lemma_puncture_prefix(out: Seq<i8>, mask: Seq<u8>, soft: Seq<i8>, n: int)
    requires
        depunctured(out, mask, soft),
        count_ones(mask) <= soft.len(),
        0 <= n <= mask.len(),
    ensures
        puncture(out, mask.take(n)) == soft.take(count_ones(mask.take(n)) as int),
    decreases n,
{
    if n == 0 {
        assert(soft.take(0) =~= Seq::<i8>::empty());
    } else {
        lemma_puncture_prefix(out, mask, soft, n - 1);
        let m = mask.take(n);
        assert(m.drop_last() =~= mask.take(n - 1));
        assert(m.last() == mask[n - 1]);
        assert(mask.take(n) =~= mask.take(n - 1).push(mask[n - 1]));
        lemma_count_ones_push(mask.take(n - 1), mask[n - 1]);
        lemma_count_ones_prefix(mask, n);
        assert(out[n - 1] == depunctured_at(mask, soft, n - 1));
        let c = count_ones(mask.take(n - 1)) as int;
        if mask[n - 1] != 0 {
            assert(soft.take(c + 1) =~= soft.take(c).push(soft[c]));
        }
    }
}

/// Depuncturing reads the input in order and drops nothing: when at least
/// `punctured_size(p)` soft bits are supplied, the kept positions of the
/// depunctured frame, read in order, are exactly the first
/// `punctured_size(p)` of them.
pub proof fn lemma_depuncture_round_trip(p: UepProfile, soft: Seq<i8>, out: Seq<i8>)
    requires
        profile_valid(p),
        soft.len() >= spec_punctured_size(p),
        depunctured(out, frame_mask(p), soft),
    ensures
        puncture(out, frame_mask(p)) == soft.take(spec_punctured_size(p) as int),
{
    let mask = frame_mask(p);
    lemma_puncture_prefix(out, mask, soft, mask.len() as int);
    assert(mask.take(mask.len() as int) =~= mask);
}

/// A kept position reads a soft bit before the frame's `punctured_size`.
proof fn lemma_kept_reads_before_end(mask: Seq<u8>, j: int)
    requires
        0 <= j < mask.len(),
        mask[j] != 0,
    ensures
        count_ones(mask.take(j)) < count_ones(mask),
{
    assert(mask.take(j + 1) =~= mask.take(j).push(mask[j]));
    lemma_count_ones_push(mask.take(j), mask[j]);
    lemma_count_ones_prefix(mask, j + 1);
}

/// Depuncturing reads only the first `punctured_size(p)` soft bits: two
/// inputs that agree there (an input past its end reading as an erasure)
/// depuncture to the same frame. So surplus input is ignored, and an input
/// cut to `punctured_size(p)` bits gives the same frame.
pub proof fn lemma_depuncture_reads_prefix(p: UepProfile, s: Seq<i8>, t: Seq<i8>, out_s: Seq<i8>, out_t: Seq<i8>)
    requires
        depunctured(out_s, frame_mask(p), s),
        depunctured(out_t, frame_mask(p), t),
        forall|k: int| 0 <= k < spec_punctured_size(p) ==> soft_at(s, k) == soft_at(t, k),
    ensures
        out_s == out_t,
{
    let mask = frame_mask(p);
    assert forall|j: int| 0 <= j < out_s.len() implies out_s[j] == out_t[j] by {
        if mask[j] != 0 {
            lemma_kept_reads_before_end(mask, j);
            lemma_count_ones_le_len(mask.take(j));
        }
        assert(out_s[j] == depunctured_at(mask, s, j));
        assert(out_t[j] == depunctured_at(mask, t, j));
    }
    assert(out_s =~= out_t);
}

/// Surplus soft bits after the first `punctured_size(p)` do not change the
/// frame, and neither does cutting the input to that size.
pub proof fn lemma_depuncture_ignores_surplus(p: UepProfile, s: Seq<i8>, extra: Seq<i8>)
    ensures
        forall|k: int| 0 <= k < spec_punctured_size(p) ==> soft_at(s, k) == soft_at(
            s.take(if s.len() < spec_punctured_size(p) { s.len() as int } else { spec_punctured_size(p) as int }),
            k,
        ),
        s.len() >= spec_punctured_size(p) ==> forall|k: int| 0 <= k < spec_punctured_size(p) ==> soft_at(s, k)
            == soft_at(s + extra, k),
{
}

/// Every punctured position of a depunctured frame is an erasure.
pub proof fn lemma_depuncture_erasures(p: UepProfile, soft: Seq<i8>, out: Seq<i8>, j: int)
    requires
        depunctured(out, frame_mask(p), soft),
        0 <= j < out.len(),
        frame_mask(p)[j] == 0,
    ensures
        out[j] == 0,
{
}

/// Consistency of one standard table row: four mother-code bits per
/// information bit of a 24 ms frame, a puncturing vector exactly for the
/// non-empty regions, and a transmitted size that fills whole 64-bit
/// capacity units up to 0, 4 or 8 padding bits.
pub open spec fn row_consistent(p: UepProfile) -> bool {
    &&& profile_valid(p)
    &&& spec_blocks_total(p) * 128 == 24 * p.bitrate * 4
    &&& forall|r: int| 0 <= r < 4 ==> (#[trigger] p.l@[r] == 0 <==> p.pi@[r] is None)
    &&& {
        let t = spec_punctured_size(p) as int;
        let alloc = (t + 63) / 64 * 64;
        alloc - t == 0 || alloc - t == 4 || alloc - t == 8
    }
}

/// Helper: row facts that do not mention the puncturing vectors' contents.
proof fn lemma_row_consistent(p: UepProfile)
    requires
        forall|r: int| 0 <= r < 4 ==> #[trigger] region_valid(p, r),
        spec_blocks_total(p) * 128 + 24 <= usize::MAX,
        spec_blocks_total(p) * 128 == 24 * p.bitrate * 4,
        forall|r: int| 0 <= r < 4 ==> (#[trigger] p.l@[r] == 0 <==> p.pi@[r] is None),
        padding_ok(p),
    ensures
        row_consistent(p),
{
    lemma_frame_mask(p);
}


/// The transmitted size of a row, in closed form, leaves 0, 4 or 8 padding
/// bits in whole 64-bit capacity units.
pub open spec fn padding_ok(p: UepProfile) -> bool {
    let t = closed_size(p);
    let alloc = (t + 63) / 64 * 64;
    alloc - t == 0 || alloc - t == 4 || alloc - t == 8
}

/// Transmitted bits of a frame, summed region by region, plus the 12 kept
/// tail bits.
pub open spec fn closed_size(p: UepProfile) -> int {
    region_ones(p, 0) + region_ones(p, 1) + region_ones(p, 2) + region_ones(p, 3) + 12
}

/// Transmitted bits per logical frame of each row of the standard table.
pub open spec fn spec_table_sizes() -> Seq<int> {
    seq![
        1024, 1344, 1536, 1856, 2236, 1536, 1856, 2236,
        2688, 3328, 1856, 2240, 2688, 3320, 2048, 2688,
        3072, 3704, 4476, 2560, 3328, 3712, 4472, 5372,
        3072, 3712, 4476, 5376, 6656, 3712, 4480, 5376,
        6652, 4096, 5376, 6140, 7424, 8952, 5120, 6656,
        7424, 8960, 10752, 6144, 7424, 8960, 10744, 13312,
        7420, 8960, 10752, 13312, 14844, 8192, 10748, 12288,
        14840, 17916, 10236, 13304, 17920, 12288, 17916, 26616,
    ]
}

/// Transmitted bits of `l` blocks punctured with vector index `q`.
spec fn ones_term(l: usize, q: usize) -> int {
    if l == 0 {
        0
    } else {
        4 * l * (9 + q)
    }
}

/// The transmitted size of a row from its block counts and vector indices
/// (an empty region's index is irrelevant and given as 0).
proof fn lemma_row_ones(
    p: UepProfile,
    l0: usize,
    l1: usize,
    l2: usize,
    l3: usize,
    q0: usize,
    q1: usize,
    q2: usize,
    q3: usize,
)
    requires
        p.l@[0] == l0 && p.l@[1] == l1 && p.l@[2] == l2 && p.l@[3] == l3,
        l0 > 0 ==> p.pi@[0] == Some(q0),
        l1 > 0 ==> p.pi@[1] == Some(q1),
        l2 > 0 ==> p.pi@[2] == Some(q2),
        l3 > 0 ==> p.pi@[3] == Some(q3),
    ensures
        closed_size(p) == ones_term(l0, q0) + ones_term(l1, q1) + ones_term(l2, q2) + ones_term(l3, q3) + 12,
{
}

#[verifier::rlimit(100)]
proof fn lemma_table_size(i: int)
    requires
        0 <= i < 64,
    ensures
        padding_ok(spec_uep_profiles()[i]),
        closed_size(spec_uep_profiles()[i]) == spec_table_sizes()[i],
{
    let t = spec_uep_profiles();
    if i == 0 {
        lemma_row_ones(t[0], 3, 4, 17, 0, 4, 2, 1, 0);
    } else if i == 1 {
        lemma_row_ones(t[1], 3, 3, 18, 0, 10, 5, 4, 0);
    } else if i == 2 {
        lemma_row_ones(t[2], 3, 4, 14, 3, 14, 8, 5, 7);
    } else if i == 3 {
        lemma_row_ones(t[3], 3, 4, 14, 3, 21, 12, 7, 12);
    } else if i == 4 {
        lemma_row_ones(t[4], 3, 5, 13, 3, 23, 16, 11, 16);
    } else if i == 5 {
        lemma_row_ones(t[5], 4, 3, 26, 3, 4, 3, 1, 2);
    } else if i == 6 {
        lemma_row_ones(t[6], 3, 4, 26, 3, 8, 5, 3, 5);
    } else if i == 7 {
        lemma_row_ones(t[7], 3, 4, 26, 3, 14, 9, 5, 8);
    } else if i == 8 {
        lemma_row_ones(t[8], 3, 4, 26, 3, 23, 13, 7, 14);
    } else if i == 9 {
        lemma_row_ones(t[9], 3, 5, 25, 3, 23, 17, 12, 17);
    } else if i == 10 {
        lemma_row_ones(t[10], 6, 10, 23, 3, 4, 3, 1, 2);
    } else if i == 11 {
        lemma_row_ones(t[11], 6, 10, 23, 3, 8, 5, 3, 4);
    } else if i == 12 {
        lemma_row_ones(t[12], 6, 12, 21, 3, 15, 6, 5, 8);
    } else if i == 13 {
        lemma_row_ones(t[13], 6, 10, 23, 3, 22, 12, 7, 12);
    } else if i == 14 {
        lemma_row_ones(t[14], 6, 9, 31, 2, 4, 2, 1, 2);
    } else if i == 15 {
        lemma_row_ones(t[15], 6, 9, 33, 0, 10, 5, 4, 0);
    } else if i == 16 {
        lemma_row_ones(t[16], 6, 12, 27, 3, 15, 7, 5, 8);
    } else if i == 17 {
        lemma_row_ones(t[17], 6, 10, 29, 3, 22, 12, 7, 12);
    } else if i == 18 {
        lemma_row_ones(t[18], 6, 11, 28, 3, 23, 17, 11, 17);
    } else if i == 19 {
        lemma_row_ones(t[19], 6, 10, 41, 3, 5, 2, 1, 2);
    } else if i == 20 {
        lemma_row_ones(t[20], 6, 10, 41, 3, 10, 5, 4, 5);
    } else if i == 21 {
        lemma_row_ones(t[21], 6, 11, 40, 3, 15, 7, 5, 6);
    } else if i == 22 {
        lemma_row_ones(t[22], 6, 10, 41, 3, 22, 12, 7, 12);
    } else if i == 23 {
        lemma_row_ones(t[23], 6, 10, 41, 3, 23, 16, 11, 17);
    } else if i == 24 {
        lemma_row_ones(t[24], 7, 9, 53, 3, 4, 3, 1, 3);
    } else if i == 25 {
        lemma_row_ones(t[25], 7, 10, 52, 3, 8, 5, 3, 5);
    } else if i == 26 {
        lemma_row_ones(t[26], 6, 12, 51, 3, 15, 8, 5, 9);
    } else if i == 27 {
        lemma_row_ones(t[27], 6, 10, 53, 3, 21, 11, 8, 11);
    } else if i == 28 {
        lemma_row_ones(t[28], 6, 13, 50, 3, 23, 17, 12, 18);
    } else if i == 29 {
        lemma_row_ones(t[29], 14, 17, 50, 3, 4, 3, 1, 4);
    } else if i == 30 {
        lemma_row_ones(t[30], 11, 21, 49, 3, 8, 5, 3, 7);
    } else if i == 31 {
        lemma_row_ones(t[31], 11, 23, 47, 3, 15, 7, 5, 8);
    } else if i == 32 {
        lemma_row_ones(t[32], 11, 21, 49, 3, 22, 11, 8, 13);
    } else if i == 33 {
        lemma_row_ones(t[33], 12, 19, 62, 3, 4, 2, 1, 3);
    } else if i == 34 {
        lemma_row_ones(t[34], 11, 21, 61, 3, 10, 5, 4, 6);
    } else if i == 35 {
        lemma_row_ones(t[35], 11, 22, 60, 3, 15, 8, 5, 9);
    } else if i == 36 {
        lemma_row_ones(t[36], 11, 21, 61, 3, 21, 11, 8, 13);
    } else if i == 37 {
        lemma_row_ones(t[37], 11, 20, 62, 3, 23, 16, 12, 18);
    } else if i == 38 {
        lemma_row_ones(t[38], 11, 19, 87, 3, 4, 3, 1, 3);
    } else if i == 39 {
        lemma_row_ones(t[39], 11, 23, 83, 3, 10, 5, 4, 8);
    } else if i == 40 {
        lemma_row_ones(t[40], 11, 24, 82, 3, 15, 7, 5, 10);
    } else if i == 41 {
        lemma_row_ones(t[41], 11, 21, 85, 3, 21, 10, 8, 12);
    } else if i == 42 {
        lemma_row_ones(t[42], 11, 22, 84, 3, 23, 17, 11, 18);
    } else if i == 43 {
        lemma_row_ones(t[43], 11, 20, 110, 3, 5, 3, 1, 4);
    } else if i == 44 {
        lemma_row_ones(t[44], 11, 22, 108, 3, 9, 5, 3, 8);
    } else if i == 45 {
        lemma_row_ones(t[45], 11, 24, 106, 3, 15, 9, 5, 10);
    } else if i == 46 {
        lemma_row_ones(t[46], 11, 20, 110, 3, 21, 12, 8, 12);
    } else if i == 47 {
        lemma_row_ones(t[47], 11, 21, 109, 3, 23, 19, 12, 23);
    } else if i == 48 {
        lemma_row_ones(t[48], 12, 22, 131, 3, 7, 5, 1, 5);
    } else if i == 49 {
        lemma_row_ones(t[49], 12, 26, 127, 3, 11, 7, 3, 10);
    } else if i == 50 {
        lemma_row_ones(t[50], 11, 20, 134, 3, 15, 9, 6, 8);
    } else if i == 51 {
        lemma_row_ones(t[51], 11, 22, 132, 3, 23, 15, 9, 14);
    } else if i == 52 {
        lemma_row_ones(t[52], 11, 24, 130, 3, 23, 19, 11, 19);
    } else if i == 53 {
        lemma_row_ones(t[53], 11, 24, 154, 3, 5, 4, 1, 4);
    } else if i == 54 {
        lemma_row_ones(t[54], 11, 24, 154, 3, 11, 8, 4, 9);
    } else if i == 55 {
        lemma_row_ones(t[55], 11, 27, 151, 3, 15, 9, 6, 9);
    } else if i == 56 {
        lemma_row_ones(t[56], 11, 22, 156, 3, 23, 13, 9, 12);
    } else if i == 57 {
        lemma_row_ones(t[57], 11, 26, 152, 3, 23, 18, 13, 17);
    } else if i == 58 {
        lemma_row_ones(t[58], 11, 26, 200, 3, 7, 4, 1, 5);
    } else if i == 59 {
        lemma_row_ones(t[59], 11, 25, 201, 3, 12, 8, 4, 9);
    } else if i == 60 {
        lemma_row_ones(t[60], 11, 26, 200, 3, 23, 16, 8, 16);
    } else if i == 61 {
        lemma_row_ones(t[61], 11, 27, 247, 3, 7, 5, 1, 6);
    } else if i == 62 {
        lemma_row_ones(t[62], 11, 24, 250, 3, 15, 8, 6, 9);
    } else if i == 63 {
        lemma_row_ones(t[63], 12, 28, 245, 3, 23, 19, 13, 22);
    }
}

proof fn lemma_table_row(i: int)
    requires
        0 <= i < 64,
    ensures
        row_consistent(spec_uep_profiles()[i]),
{
    let p = spec_uep_profiles()[i];
    assert(forall|r: int| 0 <= r < 4 ==> #[trigger] region_valid(p, r));
    lemma_table_size(i);
    lemma_row_consistent(p);
}

/// Every row of the standard UEP table is consistent.
pub proof fn lemma_uep_table_consistent()
    ensures
        forall|i: int| 0 <= i < 64 ==> #[trigger] row_consistent(spec_uep_profiles()[i]),
{
    assert forall|i: int| 0 <= i < 64 implies #[trigger] row_consistent(spec_uep_profiles()[i]) by {
        lemma_table_row(i);
    }
}

/// Neighbouring rows: the table is sorted by bitrate, and within a bitrate
/// runs from the weakest protection level to the strongest, each row
/// transmitting more bits than the one before.
proof fn lemma_table_adjacent(k: int)
    requires
        0 <= k < 63,
    ensures
        spec_uep_profiles()[k].bitrate <= spec_uep_profiles()[k + 1].bitrate,
        spec_uep_profiles()[k].bitrate == spec_uep_profiles()[k + 1].bitrate ==> {
            &&& spec_uep_profiles()[k].level > spec_uep_profiles()[k + 1].level
            &&& spec_table_sizes()[k] < spec_table_sizes()[k + 1]
        },
{
}

proof fn lemma_table_chain(i: int, j: int)
    requires
        0 <= i < j < 64,
    ensures
        spec_uep_profiles()[i].bitrate <= spec_uep_profiles()[j].bitrate,
        spec_uep_profiles()[i].bitrate == spec_uep_profiles()[j].bitrate ==> {
            &&& spec_uep_profiles()[i].level > spec_uep_profiles()[j].level
            &&& spec_table_sizes()[i] < spec_table_sizes()[j]
        },
    decreases j - i,
{
    lemma_table_adjacent(i);
    if i + 1 < j {
        lemma_table_chain(i + 1, j);
    }
}

/// Transmitted bits of table row `i`.
proof fn lemma_row_punctured_size(i: int)
    requires
        0 <= i < 64,
    ensures
        spec_punctured_size(spec_uep_profiles()[i]) == spec_table_sizes()[i],
{
    lemma_table_row(i);
    lemma_frame_mask(spec_uep_profiles()[i]);
    lemma_table_size(i);
}

/// Stronger protection costs more: of two rows of the standard table with
/// the same bitrate, the stronger protection level (the smaller number)
/// transmits more bits per logical frame.
pub proof fn lemma_stronger_protection_costs_more(i: int, j: int)
    requires
        0 <= i < 64,
        0 <= j < 64,
        spec_uep_profiles()[i].bitrate == spec_uep_profiles()[j].bitrate,
        spec_uep_profiles()[i].level < spec_uep_profiles()[j].level,
    ensures
        spec_punctured_size(spec_uep_profiles()[i]) > spec_punctured_size(spec_uep_profiles()[j]),
{
    if i < j {
        lemma_table_chain(i, j);
    } else if j < i {
        lemma_table_chain(j, i);
    }
    lemma_row_punctured_size(i);
    lemma_row_punctured_size(j);
}

/// The row that `find_profile` returns.
proof fn lemma_find_profile_row(table: Seq<UepProfile>, bitrate: u16, level: u8, i: int) -> (k: int)
    requires
        find_profile(table, bitrate, level, i) is Some,
    ensures
        0 <= k < table.len(),
        table[k] == find_profile(table, bitrate, level, i).unwrap(),
    decreases table.len() - i,
{
    if table[i].bitrate == bitrate && table[i].level == level {
        i
    } else {
        lemma_find_profile_row(table, bitrate, level, i + 1)
    }
}

/// For one bitrate, the profile of a stronger protection level transmits
/// more bits per logical frame than that of a weaker one.
pub proof fn lemma_profile_stronger_costs_more(bitrate: u16, level1: u8, level2: u8)
    requires
        find_profile(spec_uep_profiles(), bitrate, level1, 0) is Some,
        find_profile(spec_uep_profiles(), bitrate, level2, 0) is Some,
        level1 < level2,
    ensures
        spec_punctured_size(find_profile(spec_uep_profiles(), bitrate, level1, 0).unwrap())
            > spec_punctured_size(find_profile(spec_uep_profiles(), bitrate, level2, 0).unwrap()),
{
    let t = spec_uep_profiles();
    let i = lemma_find_profile_row(t, bitrate, level1, 0);
    let j = lemma_find_profile_row(t, bitrate, level2, 0);
    lemma_find_profile_matches(t, bitrate, level1, 0);
    lemma_find_profile_matches(t, bitrate, level2, 0);
    lemma_stronger_protection_costs_more(i, j);
}

proof fn lemma_find_profile_matches(table: Seq<UepProfile>, bitrate: u16, level: u8, i: int)
    ensures
        find_profile(table, bitrate, level, i) matches Some(p) ==> p.bitrate == bitrate && p.level == level,
    decreases table.len() - i,
{
    if 0 <= i < table.len() && !(table[i].bitrate == bitrate && table[i].level == level) {
        lemma_find_profile_matches(table, bitrate, level, i + 1);
    }
}

// ---------------------------------------------------------------------------
// ETSI EN 300 401 Table 15
// ---------------------------------------------------------------------------

/// One row of EN 300 401 Table 15 as the standard prints it: sub-channel
/// size in capacity units, bit rate in kbit/s, protection level, the block
/// counts L1..L4 and the puncturing vector numbers PI1..PI4 (1-based, 0 for
/// the "-" of an empty region).
pub struct Table15Row {
    pub size_cu: int,
    pub bitrate: int,
    pub level: int,
    pub l1: int,
    pub l2: int,
    pub l3: int,
    pub l4: int,
    pub pi1: int,
    pub pi2: int,
    pub pi3: int,
    pub pi4: int,
}

pub open spec fn t15(
    size_cu: int,
    bitrate: int,
    level: int,
    l1: int,
    l2: int,
    l3: int,
    l4: int,
    pi1: int,
    pi2: int,
    pi3: int,
    pi4: int,
) -> Table15Row {
    Table15Row { size_cu, bitrate, level, l1, l2, l3, l4, pi1, pi2, pi3, pi4 }
}

/// EN 300 401 Table 15, in the order of its index column.
pub open spec fn table15() -> Seq<Table15Row> {
    seq![
        t15( 16,  32, 5,   3,   4,  17, 0,  5,  3,  2,  0),  // index 0
        t15( 21,  32, 4,   3,   3,  18, 0, 11,  6,  5,  0),  // index 1
        t15( 24,  32, 3,   3,   4,  14, 3, 15,  9,  6,  8),  // index 2
        t15( 29,  32, 2,   3,   4,  14, 3, 22, 13,  8, 13),  // index 3
        t15( 35,  32, 1,   3,   5,  13, 3, 24, 17, 12, 17),  // index 4
        t15( 24,  48, 5,   4,   3,  26, 3,  5,  4,  2,  3),  // index 5
        t15( 29,  48, 4,   3,   4,  26, 3,  9,  6,  4,  6),  // index 6
        t15( 35,  48, 3,   3,   4,  26, 3, 15, 10,  6,  9),  // index 7
        t15( 42,  48, 2,   3,   4,  26, 3, 24, 14,  8, 15),  // index 8
        t15( 52,  48, 1,   3,   5,  25, 3, 24, 18, 13, 18),  // index 9
        t15( 29,  56, 5,   6,  10,  23, 3,  5,  4,  2,  3),  // index 10
        t15( 35,  56, 4,   6,  10,  23, 3,  9,  6,  4,  5),  // index 11
        t15( 42,  56, 3,   6,  12,  21, 3, 16,  7,  6,  9),  // index 12
        t15( 52,  56, 2,   6,  10,  23, 3, 23, 13,  8, 13),  // index 13
        t15( 32,  64, 5,   6,   9,  31, 2,  5,  3,  2,  3),  // index 14
        t15( 42,  64, 4,   6,   9,  33, 0, 11,  6,  5,  0),  // index 15
        t15( 48,  64, 3,   6,  12,  27, 3, 16,  8,  6,  9),  // index 16
        t15( 58,  64, 2,   6,  10,  29, 3, 23, 13,  8, 13),  // index 17
        t15( 70,  64, 1,   6,  11,  28, 3, 24, 18, 12, 18),  // index 18
        t15( 40,  80, 5,   6,  10,  41, 3,  6,  3,  2,  3),  // index 19
        t15( 52,  80, 4,   6,  10,  41, 3, 11,  6,  5,  6),  // index 20
        t15( 58,  80, 3,   6,  11,  40, 3, 16,  8,  6,  7),  // index 21
        t15( 70,  80, 2,   6,  10,  41, 3, 23, 13,  8, 13),  // index 22
        t15( 84,  80, 1,   6,  10,  41, 3, 24, 17, 12, 18),  // index 23
        t15( 48,  96, 5,   7,   9,  53, 3,  5,  4,  2,  4),  // index 24
        t15( 58,  96, 4,   7,  10,  52, 3,  9,  6,  4,  6),  // index 25
        t15( 70,  96, 3,   6,  12,  51, 3, 16,  9,  6, 10),  // index 26
        t15( 84,  96, 2,   6,  10,  53, 3, 22, 12,  9, 12),  // index 27
        t15(104,  96, 1,   6,  13,  50, 3, 24, 18, 13, 19),  // index 28
        t15( 58, 112, 5,  14,  17,  50, 3,  5,  4,  2,  5),  // index 29
        t15( 70, 112, 4,  11,  21,  49, 3,  9,  6,  4,  8),  // index 30
        t15( 84, 112, 3,  11,  23,  47, 3, 16,  8,  6,  9),  // index 31
        t15(104, 112, 2,  11,  21,  49, 3, 23, 12,  9, 14),  // index 32
        t15( 64, 128, 5,  12,  19,  62, 3,  5,  3,  2,  4),  // index 33
        t15( 84, 128, 4,  11,  21,  61, 3, 11,  6,  5,  7),  // index 34
        t15( 96, 128, 3,  11,  22,  60, 3, 16,  9,  6, 10),  // index 35
        t15(116, 128, 2,  11,  21,  61, 3, 22, 12,  9, 14),  // index 36
        t15(140, 128, 1,  11,  20,  62, 3, 24, 17, 13, 19),  // index 37
        t15( 80, 160, 5,  11,  19,  87, 3,  5,  4,  2,  4),  // index 38
        t15(104, 160, 4,  11,  23,  83, 3, 11,  6,  5,  9),  // index 39
        t15(116, 160, 3,  11,  24,  82, 3, 16,  8,  6, 11),  // index 40
        t15(140, 160, 2,  11,  21,  85, 3, 22, 11,  9, 13),  // index 41
        t15(168, 160, 1,  11,  22,  84, 3, 24, 18, 12, 19),  // index 42
        t15( 96, 192, 5,  11,  20, 110, 3,  6,  4,  2,  5),  // index 43
        t15(116, 192, 4,  11,  22, 108, 3, 10,  6,  4,  9),  // index 44
        t15(140, 192, 3,  11,  24, 106, 3, 16, 10,  6, 11),  // index 45
        t15(168, 192, 2,  11,  20, 110, 3, 22, 13,  9, 13),  // index 46
        t15(208, 192, 1,  11,  21, 109, 3, 24, 20, 13, 24),  // index 47
        t15(116, 224, 5,  12,  22, 131, 3,  8,  6,  2,  6),  // index 48
        t15(140, 224, 4,  12,  26, 127, 3, 12,  8,  4, 11),  // index 49
        t15(168, 224, 3,  11,  20, 134, 3, 16, 10,  7,  9),  // index 50
        t15(208, 224, 2,  11,  22, 132, 3, 24, 16, 10, 15),  // index 51
        t15(232, 224, 1,  11,  24, 130, 3, 24, 20, 12, 20),  // index 52
        t15(128, 256, 5,  11,  24, 154, 3,  6,  5,  2,  5),  // index 53
        t15(168, 256, 4,  11,  24, 154, 3, 12,  9,  5, 10),  // index 54
        t15(192, 256, 3,  11,  27, 151, 3, 16, 10,  7, 10),  // index 55
        t15(232, 256, 2,  11,  22, 156, 3, 24, 14, 10, 13),  // index 56
        t15(280, 256, 1,  11,  26, 152, 3, 24, 19, 14, 18),  // index 57
        t15(160, 320, 5,  11,  26, 200, 3,  8,  5,  2,  6),  // index 58
        t15(208, 320, 4,  11,  25, 201, 3, 13,  9,  5, 10),  // index 59
        t15(280, 320, 2,  11,  26, 200, 3, 24, 17,  9, 17),  // index 60
        t15(192, 384, 5,  11,  27, 247, 3,  8,  6,  2,  7),  // index 61
        t15(280, 384, 3,  11,  24, 250, 3, 16,  9,  7, 10),  // index 62
        t15(416, 384, 1,  12,  28, 245, 3, 24, 20, 14, 23),  // index 63
    ]
}

/// The puncturing-vector entry of a profile region as Table 15 prints it.
pub open spec fn pi_number(pi: Option<usize>) -> int {
    match pi {
        None => 0,
        Some(i) => i + 1,
    }
}

/// A profile is exactly the Table 15 row `r`.
pub open spec fn profile_is_row(p: UepProfile, r: Table15Row) -> bool {
    &&& p.bitrate == r.bitrate
    &&& p.level == r.level
    &&& p.l@[0] == r.l1 && p.l@[1] == r.l2 && p.l@[2] == r.l3 && p.l@[3] == r.l4
    &&& pi_number(p.pi@[0]) == r.pi1 && pi_number(p.pi@[1]) == r.pi2
    &&& pi_number(p.pi@[2]) == r.pi3 && pi_number(p.pi@[3]) == r.pi4
}

/// A frame of `n` transmitted bits fills `(n + 63) / 64` capacity units.
pub open spec fn capacity_units(n: int) -> int {
    (n + 63) / 64
}

proof fn lemma_row_is_table15(i: int)
    requires
        0 <= i < 64,
    ensures
        profile_is_row(spec_uep_profiles()[i], table15()[i]),
{
}

proof fn lemma_row_size_is_table15(i: int)
    requires
        0 <= i < 64,
    ensures
        capacity_units(spec_punctured_size(spec_uep_profiles()[i]) as int) == table15()[i].size_cu,
{
    lemma_row_punctured_size(i);
    let n = spec_table_sizes()[i];
    let c = table15()[i].size_cu;
    assert(64 * c - 8 <= n <= 64 * c) by {
        reveal_with_fuel(capacity_units, 1);
    }
    assert(capacity_units(n) == c) by (nonlinear_arith)
        requires
            64 * c - 8 <= n <= 64 * c,
    ;
}

/// The standard UEP profile table is EN 300 401 Table 15, row for row: the
/// same bit rate, protection level, block counts and puncturing vectors, and
/// a transmitted frame that fills exactly the sub-channel size the table
/// gives in capacity units.
pub proof fn lemma_uep_profiles_are_table15()
    ensures
        spec_uep_profiles().len() == table15().len(),
        forall|i: int|
            0 <= i < 64 ==> {
                &&& #[trigger] profile_is_row(spec_uep_profiles()[i], table15()[i])
                &&& capacity_units(spec_punctured_size(spec_uep_profiles()[i]) as int) == table15()[i].size_cu
            },
{
    assert forall|i: int| 0 <= i < 64 implies {
        &&& #[trigger] profile_is_row(spec_uep_profiles()[i], table15()[i])
        &&& capacity_units(spec_punctured_size(spec_uep_profiles()[i]) as int) == table15()[i].size_cu
    } by {
        lemma_row_is_table15(i);
        lemma_row_size_is_table15(i);
    }
}

proof fn lemma_find_profile_at(table: Seq<UepProfile>, bitrate: u16, level: u8, j: int, i: int)
    requires
        0 <= j <= i < table.len(),
        table[i].bitrate == bitrate && table[i].level == level,
        forall|k: int| j <= k < i ==> !(table[k].bitrate == bitrate && table[k].level == level),
    ensures
        find_profile(table, bitrate, level, j) == Some(table[i]),
    decreases i - j,
{
    if j < i {
        lemma_find_profile_at(table, bitrate, level, j + 1, i);
    }
}

/// `profile` answers with Table 15: for a bit rate and level that a row of
/// Table 15 names, the profile of that row; for any other pair, none.
pub proof fn lemma_profile_is_table15(bitrate: u16, level: u8)
    ensures
        forall|i: int|
            0 <= i < 64 && #[trigger] table15()[i].bitrate == bitrate && table15()[i].level == level
                ==> (find_profile(spec_uep_profiles(), bitrate, level, 0) is Some && profile_is_row(
                find_profile(spec_uep_profiles(), bitrate, level, 0).unwrap(),
                table15()[i],
            )),
        find_profile(spec_uep_profiles(), bitrate, level, 0) is None <==> forall|i: int|
            0 <= i < 64 ==> !(#[trigger] table15()[i].bitrate == bitrate && table15()[i].level == level),
{
    let t = spec_uep_profiles();
    lemma_uep_profiles_are_table15();
    assert forall|i: int|
        0 <= i < 64 && #[trigger] table15()[i].bitrate == bitrate && table15()[i].level == level
            implies (find_profile(t, bitrate, level, 0) is Some && profile_is_row(
        find_profile(t, bitrate, level, 0).unwrap(),
        table15()[i],
    )) by {
        assert(profile_is_row(t[i], table15()[i]));
        assert forall|k: int| 0 <= k < i implies !(t[k].bitrate == bitrate && t[k].level == level) by {
            lemma_table_chain(k, i);
        }
        lemma_find_profile_at(t, bitrate, level, 0, i);
    }
    if find_profile(t, bitrate, level, 0) is Some {
        let k = lemma_find_profile_row(t, bitrate, level, 0);
        lemma_find_profile_matches(t, bitrate, level, 0);
        assert(profile_is_row(t[k], table15()[k]));
        assert(table15()[k].bitrate == bitrate && table15()[k].level == level);
    }
}

} // verus!
