//! Playback positions: a frame index and a fixed-point offset inside it.
use vstd::prelude::*;
use crate::speed::ONE;

verus! {

/// Samples per channel in one decoded frame.
pub const FRAME_LEN: i64 = 1152;

/// The fixed-point span of one frame.
pub const FRAME_SPAN: i64 = 75497472;

/// Largest magnitude of a frame index handed to `renormalize`.
pub const INDEX_LIMIT: i64 = 1073741824;

/// Largest magnitude of an offset handed to `renormalize`.
pub const OFFSET_LIMIT: i64 = 2305843009213693952;

pub open spec fn absolute(frame_index: int, offset: int) -> int {
    frame_index * FRAME_SPAN + offset
}

/// Moves an offset that ran outside its frame back into `[0, FRAME_SPAN)`,
/// shifting the frame index so that the absolute position is kept.
pub fn renormalize(frame_index: i64, offset: i64) -> (r: (i64, i64))
    requires
        -INDEX_LIMIT <= frame_index <= INDEX_LIMIT,
        -OFFSET_LIMIT <= offset <= OFFSET_LIMIT,
    ensures
        0 <= r.1 < FRAME_SPAN,
        absolute(r.0 as int, r.1 as int) == absolute(frame_index as int, offset as int),
{
    assert(FRAME_SPAN == FRAME_LEN * ONE);
    if offset >= 0 {
        let k: i64 = offset / FRAME_SPAN;
        let o: i64 = offset % FRAME_SPAN;
        assert(k <= OFFSET_LIMIT / FRAME_SPAN);
        assert(k * FRAME_SPAN + o == offset) by (nonlinear_arith)
            requires k == offset / FRAME_SPAN, o == offset % FRAME_SPAN, FRAME_SPAN > 0;
        assert(absolute((frame_index + k) as int, o as int) == absolute(frame_index as int, offset as int)) by (nonlinear_arith)
            requires k * FRAME_SPAN + o == offset;
        (frame_index + k, o)
    } else {
        let n: i64 = -1 - offset;
        let k: i64 = n / FRAME_SPAN + 1;
        let m: i64 = n % FRAME_SPAN;
        assert((k - 1) * FRAME_SPAN + m == n) by (nonlinear_arith)
            requires k - 1 == n / FRAME_SPAN, m == n % FRAME_SPAN, FRAME_SPAN > 0;
        assert(k <= OFFSET_LIMIT / FRAME_SPAN + 1);
        let o: i64 = FRAME_SPAN - 1 - m;
        assert(absolute((frame_index - k) as int, o as int) == absolute(frame_index as int, offset as int)) by (nonlinear_arith)
            requires (k - 1) * FRAME_SPAN + m == n, n == -1 - offset, o == FRAME_SPAN - 1 - m;
        (frame_index - k, o)
    }
}

/// The renormalized form of a position keeps it: an offset inside its frame
/// comes back unchanged, and renormalizing twice is renormalizing once.
pub proof fn lemma_renormalize_unique(i1: int, o1: int, i2: int, o2: int)
    requires
        0 <= o1 < FRAME_SPAN,
        0 <= o2 < FRAME_SPAN,
        absolute(i1, o1) == absolute(i2, o2),
    ensures
        i1 == i2,
        o1 == o2,
{
    assert(i1 == i2) by (nonlinear_arith)
        requires
            0 <= o1 < FRAME_SPAN,
            0 <= o2 < FRAME_SPAN,
            i1 * FRAME_SPAN + o1 == i2 * FRAME_SPAN + o2;
}

} // verus!
