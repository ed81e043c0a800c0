//! A frame-rate estimate over the most recent frames.
//!
//! Each frame records the time at which it started, in milliseconds. The
//! estimate is the number of frames between the oldest and the newest
//! recorded time, divided by the time that passed between the two.

use crate::ring::{keep_last, Ring};
use vstd::prelude::*;

verus! {

/// The number of frame times that are kept. It is odd, so that the oldest
/// and the newest of them are an even number of frames apart.
pub const SIZE: usize = 11;

/// The frame rate, in whole frames per second, when `SIZE` frame times
/// have been kept of which the oldest is `oldest` and the newest `newest`.
pub open spec fn frames_per_second(oldest: u32, newest: u32) -> int {
    (SIZE - 1) * 1000 / (newest - oldest)
}

/// The times of the most recent frames.
pub struct FPS {
    ring: Ring,
}

/// An estimator that has seen no frame yet.
pub fn new() -> (fps: FPS)
    ensures
        fps.wf(),
        fps.samples() == Seq::<u32>::empty(),
{
    FPS { ring: Ring::new(SIZE) }
}

impl FPS {
    /// The frame times that are kept, oldest first.
    pub closed spec fn samples(&self) -> Seq<u32> {
        self.ring@
    }

    /// The invariant of the representation.
    pub closed spec fn wf(&self) -> bool {
        &&& self.ring.wf()
        &&& self.ring.spec_capacity() == SIZE
    }

    /// Whether an estimate can be made: `SIZE` frame times are kept, and
    /// the newest is later than the oldest.
    pub open spec fn can_average(&self) -> bool {
        &&& self.samples().len() == SIZE
        &&& self.samples().first() < self.samples().last()
    }

    /// At most `SIZE` frame times are kept.
    pub proof fn lemma_samples_bounded(&self)
        requires
            self.wf(),
        ensures
            self.samples().len() <= SIZE,
    {
        self.ring.lemma_len_bounded();
    }

    /// Records that a frame started at time `now`. Of more than `SIZE`
    /// frame times the oldest is forgotten.
    pub fn tick(&mut self, now: u32)
        requires
            old(self).wf(),
        ensures
            final(self).wf(),
            final(self).samples() == keep_last(old(self).samples().push(now), SIZE as nat),
    {
        self.ring.push(now);
    }

    /// Whether `average` may be called.
    pub fn ready(&self) -> (ok: bool)
        requires
            self.wf(),
        ensures
            ok == self.can_average(),
    {
        self.ring.is_full() && self.ring.tail() < self.ring.head()
    }

    /// The frame rate over the frames that are kept, in whole frames per
    /// second.
    pub fn average(&self) -> (fps: u32)
        requires
            self.wf(),
            self.can_average(),
        ensures
            fps == frames_per_second(self.samples().first(), self.samples().last()),
    {
        let ticks_over_period: u32 = self.ring.head() - self.ring.tail();
        10_000 / ticks_over_period
    }
}

/// After one frame more, the kept frame times are those of the last
/// `SIZE` frames: the new one is the newest, and the others keep their order.
pub proof fn lemma_tick_appends(before: Seq<u32>, now: u32)
    requires
        before.len() <= SIZE,
    ensures
        keep_last(before.push(now), SIZE as nat).last() == now,
        before.len() < SIZE ==> keep_last(before.push(now), SIZE as nat) == before.push(now),
        before.len() == SIZE ==> keep_last(before.push(now), SIZE as nat) == before.drop_first().push(
            now,
        ),
{
    if before.len() == SIZE {
        assert(keep_last(before.push(now), SIZE as nat) =~= before.drop_first().push(now));
    }
}

/// The frame times that are kept after frames at the times `ticks`, one
/// after the other, by an estimator that had seen none before.
pub open spec fn samples_after(ticks: Seq<u32>) -> Seq<u32>
    decreases ticks.len(),
{
    if ticks.len() == 0 {
        Seq::empty()
    } else {
        keep_last(samples_after(ticks.drop_last()).push(ticks.last()), SIZE as nat)
    }
}

/// What is kept is always the times of the last `SIZE` frames, or of all
/// frames while there are fewer.
pub proof fn lemma_samples_are_the_latest(ticks: Seq<u32>)
    ensures
        samples_after(ticks) == keep_last(ticks, SIZE as nat),
    decreases ticks.len(),
{
    if ticks.len() > 0 {
        let earlier = ticks.drop_last();
        lemma_samples_are_the_latest(earlier);
        assert(earlier.push(ticks.last()) =~= ticks);
        assert(keep_last(keep_last(earlier, SIZE as nat).push(ticks.last()), SIZE as nat)
            =~= keep_last(ticks, SIZE as nat));
    } else {
        assert(keep_last(ticks, SIZE as nat) =~= Seq::<u32>::empty());
    }
}

/// Frames that follow each other every `step` milliseconds give a frame
/// rate of a thousand over `step`, rounded down.
pub proof fn lemma_even_pace(start: u32, step: u32)
    requires
        step > 0,
        start + (SIZE - 1) * step <= u32::MAX,
    ensures
        frames_per_second(start, (start + (SIZE - 1) * step) as u32) == 1000int / (step as int),
{
    let d: int = step as int;
    assert(10_000int / (10 * d) == 1000int / d) by (nonlinear_arith)
        requires
            d >= 1,
    ;
}

/// The estimate is never more than ten thousand frames per second, and it
/// is zero only if more than ten seconds passed.
pub proof fn lemma_average_bounds(oldest: u32, newest: u32)
    requires
        oldest < newest,
    ensures
        0 <= frames_per_second(oldest, newest) <= 10_000,
        frames_per_second(oldest, newest) == 0 <==> newest - oldest > 10_000,
{
    let d: int = newest - oldest;
    assert(0 <= 10_000int / d <= 10_000) by (nonlinear_arith)
        requires
            d >= 1,
    ;
    assert((10_000int / d == 0) <==> d > 10_000) by (nonlinear_arith)
        requires
            d >= 1,
    ;
}

} // verus!
