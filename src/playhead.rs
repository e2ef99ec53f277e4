//! The audio side of the handoff: reading samples out of the chunk that the
//! engine handed over, at its speed, until the offset leaves the chunk.
use vstd::prelude::*;
use crate::speed::{ONE, SPEED_CAP};
use crate::cursor::FRAME_LEN;

verus! {

/// The chunk that the callback holds: its offset and speed, fixed point.
#[derive(Clone, Copy, Debug, PartialEq, Eq, Structural)]
pub struct Playhead {
    pub offset: i64,
    pub speed: i64,
}

/// How a call of `fill` ended.
#[derive(Clone, Copy, Debug, PartialEq, Eq, Structural)]
pub enum FillEnd {
    /// The output buffer is full; the chunk is not used up.
    BufferFull,
    /// The offset left the chunk after this many slots were written: report
    /// it upstream and wait for the next chunk.
    Exhausted(usize),
}

/// The offset is inside a chunk of `len` samples.
pub open spec fn inside(offset: int, len: int) -> bool {
    0 <= offset && offset / (ONE as int) < len
}

/// Slot `k` of the outputs holds the sample at the offset that playing from
/// `start` at `speed` reaches after `k - from` slots.
pub open spec fn slot_ok(out_l: Seq<i32>, out_r: Seq<i32>, left: Seq<i32>, right: Seq<i32>, start: int, speed: int, from: int, k: int) -> bool {
    let o = start + (k - from) * speed;
    &&& inside(o, left.len() as int)
    &&& out_l[k] == left[o / (ONE as int)]
    &&& out_r[k] == right[o / (ONE as int)]
}

impl Playhead {
    /// The offset is inside a chunk of `len` samples and the speed is capped.
    pub open spec fn wf(&self, len: int) -> bool {
        inside(self.offset as int, len) && -SPEED_CAP <= self.speed <= SPEED_CAP
    }

    /// Takes a chunk of `len` samples that starts at `start` and plays at
    /// `speed`.
    pub fn new(start: i64, speed: i64, len: usize) -> (r: Playhead)
        requires
            inside(start as int, len as int),
            -SPEED_CAP <= speed <= SPEED_CAP,
        ensures
            r.wf(len as int),
            r.offset == start,
            r.speed == speed,
    {
        Playhead { offset: start, speed }
    }

    /// Writes samples of the chunk into `out_l` and `out_r` from slot `from`
    /// on: each slot gets the sample at the offset, and the offset moves by
    /// the speed. Stops when the buffers are full or the offset leaves the
    /// chunk.
    pub fn fill(&mut self, left: &Vec<i32>, right: &Vec<i32>, out_l: &mut Vec<i32>, out_r: &mut Vec<i32>, from: usize) -> (r: FillEnd)
        requires
            old(self).wf(left@.len() as int),
            0 < left@.len() <= FRAME_LEN,
            right@.len() == left@.len(),
            old(out_l)@.len() == old(out_r)@.len(),
            from <= old(out_l)@.len(),
        ensures
            final(out_l)@.len() == old(out_l)@.len(),
            final(out_r)@.len() == old(out_r)@.len(),
            final(self).speed == old(self).speed,
            match r {
                FillEnd::BufferFull => {
                    &&& final(self).wf(left@.len() as int)
                    &&& final(self).offset == old(self).offset + (old(out_l)@.len() - from) * old(self).speed
                    &&& forall|k: int| from <= k < old(out_l)@.len() ==> #[trigger] slot_ok(final(out_l)@, final(out_r)@, left@, right@, old(self).offset as int, old(self).speed as int, from as int, k)
                },
                FillEnd::Exhausted(n) => {
                    &&& from < n <= old(out_l)@.len()
                    &&& final(self).offset == old(self).offset + (n - from) * old(self).speed
                    &&& !inside(final(self).offset as int, left@.len() as int)
                    &&& forall|k: int| from <= k < n ==> #[trigger] slot_ok(final(out_l)@, final(out_r)@, left@, right@, old(self).offset as int, old(self).speed as int, from as int, k)
                },
            },
            forall|k: int| 0 <= k < from ==> final(out_l)@[k] == old(out_l)@[k] && final(out_r)@[k] == old(out_r)@[k],
    {
        let n = out_l.len();
        let start = self.offset;
        let speed = self.speed;
        let mut k: usize = from;
        while k < n
            invariant
                from <= k <= n,
                n == out_l@.len(),
                out_l@.len() == old(out_l)@.len(),
                out_r@.len() == old(out_r)@.len(),
                old(out_l)@.len() == old(out_r)@.len(),
                0 < left@.len() <= FRAME_LEN,
                right@.len() == left@.len(),
                self.speed == old(self).speed,
                start == old(self).offset,
                speed == old(self).speed,
                -SPEED_CAP <= self.speed <= SPEED_CAP,
                inside(self.offset as int, left@.len() as int),
                self.offset == old(self).offset + (k - from) * old(self).speed,
                forall|j: int| from <= j < k ==> #[trigger] slot_ok(out_l@, out_r@, left@, right@, start as int, speed as int, from as int, j),
                forall|j: int| 0 <= j < from ==> out_l@[j] == old(out_l)@[j] && out_r@[j] == old(out_r)@[j],
            decreases n - k,
        {
            let idx = (self.offset / ONE) as usize;
            let ghost before_l = out_l@;
            let ghost before_r = out_r@;
            out_l.set(k, left[idx]);
            out_r.set(k, right[idx]);
            proof {
                assert forall|j: int| from <= j < k + 1 implies
                    #[trigger] slot_ok(out_l@, out_r@, left@, right@, start as int, speed as int, from as int, j) by {
                    if j < k {
                        assert(slot_ok(before_l, before_r, left@, right@, start as int, speed as int, from as int, j));
                    } else {
                        assert(start + (j - from) * speed == self.offset);
                    }
                }
            }
            let next = self.offset + self.speed;
            let ghost cur = self.offset;
            assert(next == start + (k + 1 - from) * speed) by (nonlinear_arith)
                requires next == cur + speed, cur == start + (k - from) * speed;
            self.offset = next;
            k = k + 1;
            if next < 0 || next / ONE >= left.len() as i64 {
                return FillEnd::Exhausted(k);
            }
        }
        FillEnd::BufferFull
    }
}

/// What the callback holds between output slots.
#[derive(Clone, Copy, Debug, PartialEq, Eq, Structural)]
pub enum Held {
    /// No chunk, or the engine asked for silence: write silence and look
    /// for a chunk without blocking.
    Silent,
    /// A chunk being played.
    Playing(Playhead),
    /// The consumed offset went upstream; block for the next chunk before
    /// writing any slot.
    Awaiting,
}

/// What the callback sends upstream: the offset at which it left a chunk.
pub open spec fn report(h: Held) -> Option<i64> {
    match h {
        Held::Playing(p) => Some(p.offset),
        _ => None,
    }
}

/// Takes a chunk from the engine: `len` samples per channel (0: silence),
/// the start offset and the speed. A chunk that does not fit is played as
/// silence.
pub fn take_chunk(len: usize, start: i64, speed: i64) -> (r: Held)
    ensures
        (0 < len <= FRAME_LEN && inside(start as int, len as int) && -SPEED_CAP <= speed <= SPEED_CAP)
            ==> r == Held::Playing(Playhead { offset: start, speed }),
        !(0 < len <= FRAME_LEN && inside(start as int, len as int) && -SPEED_CAP <= speed <= SPEED_CAP)
            ==> r == Held::Silent,
        r matches Held::Playing(p) ==> p.wf(len as int),
{
    if len > 0 && len <= 1152 && start >= 0 && start / ONE < len as i64 && -SPEED_CAP <= speed && speed <= SPEED_CAP {
        Held::Playing(Playhead::new(start, speed, len))
    } else {
        Held::Silent
    }
}

/// After a fill that used up the chunk, or at the end of the output buffer
/// with a chunk held: the offset goes upstream and the next chunk is owed.
/// Silence and a pending wait send nothing.
pub fn hand_back(h: Held) -> (r: (Held, Option<i64>))
    ensures
        r.1 == report(h),
        r.0 == (if h is Playing { Held::Awaiting } else { h }),
{
    match h {
        Held::Playing(p) => (Held::Awaiting, Some(p.offset)),
        _ => (h, None),
    }
}

/// What the callback does after filling from a chunk it plays: with the
/// buffer full it keeps the chunk and goes on at the end of the buffer;
/// with the chunk used up after slot `m` it reports the offset upstream,
/// owes a blocking receive of the next chunk, and goes on at slot `m`.
pub fn after_fill(p: Playhead, end: FillEnd, n: usize) -> (r: (Held, Option<i64>, usize))
    ensures
        end == FillEnd::BufferFull ==> r == (Held::Playing(p), None::<i64>, n),
        end matches FillEnd::Exhausted(m) ==> r == (Held::Awaiting, Some(p.offset), m),
{
    match end {
        FillEnd::BufferFull => (Held::Playing(p), None, n),
        FillEnd::Exhausted(m) => {
            let (h, o) = hand_back(Held::Playing(p));
            (h, o, m)
        },
    }
}

/// Whether the callback must block for a chunk before writing a slot: only
/// when it has handed back an offset and the next chunk is owed.
pub fn must_wait(h: Held) -> (r: bool)
    ensures
        r == (h == Held::Awaiting),
{
    match h {
        Held::Awaiting => true,
        _ => false,
    }
}

} // verus!
