//! Movement paths for animated sprites. A path is a piecewise-linear
//! track of points; the randomised constructor draws a direction and a
//! height and lets the sprite cross the panel. Frame selection and
//! drawing timing live in the host binary — only the path data and its
//! construction rules are modelled here.

use rand::Rng;
use vstd::prelude::*;

verus! {

/// How an animation advances through its frames.
#[derive(Debug, Clone, Copy, PartialEq, Eq, Structural)]
pub enum LoopMode {
    Loop,
    PingPong,
}

#[verifier::external_type_specification]
#[verifier::external_body]
pub struct ExThreadRng(rand::rngs::ThreadRng);

/// Relies on rand's `Rng::gen` with the `Standard` distribution on `bool`:
/// a fair draw of either value. Nothing is promised of the outcome.
#[verifier::external_body]
fn coin_flip(rng: &mut rand::rngs::ThreadRng) -> bool {
    rng.gen::<bool>()
}

/// Relies on rand's `Rng::gen_range`: the sample lies within the given
/// range, and the call panics on an empty range, so one is required.
#[verifier::external_body]
fn draw_in_range(rng: &mut rand::rngs::ThreadRng, lo: i32, hi: i32) -> (r: i32)
    requires
        lo < hi,
    ensures
        lo <= r < hi,
{
    rng.gen_range(lo..hi)
}

/// A piecewise-linear movement path. Each point is
/// (x, y, milliseconds to reach it, facing-left flag); `start` is the
/// moment the animation began, in milliseconds of the host's clock, unset
/// until the first animation step.
#[derive(Debug, Clone)]
pub struct AnimatedPath {
    pub points: Vec<(i32, i32, u64, bool)>,
    pub start: Option<u64>,
    pub finished: bool,
}

/// The two points of a random crossing: off one edge to off the other at
/// a drawn height, facing the direction of travel.
pub open spec fn spec_random_points(left: bool, height: i32, duration: u64) -> Seq<
    (i32, i32, u64, bool),
> {
    if left {
        seq![(200i32, height, 0u64, left), (-32i32, height, duration, left)]
    } else {
        seq![(-32i32, height, 0u64, left), (200i32, height, duration, left)]
    }
}

impl AnimatedPath {
    /// A path over the given points, not yet started.
    pub fn new(points: Vec<(i32, i32, u64, bool)>) -> (path: AnimatedPath)
        ensures
            path.points@ == points@,
            path.start is None,
            !path.finished,
    {
        AnimatedPath { points, start: None, finished: false }
    }

    /// A random panel crossing: a coin flip picks the direction, a draw
    /// from 0..64 the height; the sprite then moves edge to edge over
    /// `duration` milliseconds.
    pub fn new_random(rng: &mut rand::rngs::ThreadRng, duration: u64) -> (path: AnimatedPath)
        ensures
            path.start is None,
            !path.finished,
            exists|left: bool, height: i32|
                0 <= height < 64 && path.points@ == spec_random_points(left, height, duration),
    {
        let left = coin_flip(rng);
        let height = draw_in_range(rng, 0, 64);
        let mut start: i32 = -32;
        let mut end: i32 = 200;
        if left {
            core::mem::swap(&mut start, &mut end);
        }
        let mut points: Vec<(i32, i32, u64, bool)> = Vec::new();
        points.push((start, height, 0, left));
        points.push((end, height, duration, left));
        let path = AnimatedPath::new(points);
        proof {
            assert(path.points@ =~= spec_random_points(left, height, duration));
        }
        path
    }

    /// Rewinds the path: the start moment is forgotten and the path is no
    /// longer finished; the points stay.
    pub fn reset(&mut self)
        ensures
            final(self).points@ == old(self).points@,
            final(self).start is None,
            !final(self).finished,
    {
        self.start = None;
        self.finished = false;
    }
}

} // verus!
