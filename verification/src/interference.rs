//! Interference between two tracked objects, and the modes of a tracked pair.
//!
//! Two objects interfere where their closest points are less than a threshold
//! apart. A pair is tracked until it interferes; then an effect is chosen for
//! the triggered ensemble, which animates until it has settled or the source is
//! advanced.

use vstd::prelude::*;
use rand::Rng;
use rand::rngs::StdRng;
use crate::closest::closest_pair_spec;
use crate::closest::lemma_closest_pair_of_nothing;
use crate::geometry::Point;
use crate::geometry::dist_sq;
use crate::geometry::lemma_dist_sq_bounds;
use crate::geometry::squared_distance;
use crate::image::Mask;
use crate::particle_system::EffectType;
use crate::particle_system::ParticleSystem;

verus! {

/// A seedable pseudo-random generator, the source of the effect choice.
#[verifier::external_type_specification]
#[verifier::external_body]
pub struct ExStdRng(rand::rngs::StdRng);

/// The mode of a tracked pair.
#[derive(Clone, Copy, Debug, PartialEq, Eq, Structural)]
pub enum Mode {
    /// Both ensembles are rebuilt from their objects in every cycle.
    Tracking,
    /// The objects were seen closer than the threshold; no effect is chosen yet.
    Interfering,
    /// The triggered ensemble moves by its effect and is not rebuilt.
    Animating,
}

/// What can happen to a tracked pair.
#[derive(Clone, Copy, Debug, PartialEq, Eq, Structural)]
pub enum Event {
    /// The closest points of this cycle are not closer than the threshold.
    Apart,
    /// The closest points of this cycle are closer than the threshold.
    Close,
    /// An effect was chosen and the triggered ensemble set animating.
    Engaged,
    /// The triggered ensemble is no longer animating.
    Settled,
    /// The source of the triggered object was advanced from outside.
    AdvanceSource,
}

/// What a cycle does in a given mode.
#[derive(Clone, Copy, Debug, PartialEq, Eq, Structural)]
pub struct CyclePlan {
    /// Take the next frame of the triggered object's source.
    pub fetch_triggered_source: bool,
    /// Rebuild the ensemble of the triggering object from its points.
    pub repopulate_trigger: bool,
    /// Rebuild the triggered ensemble from its points.
    pub repopulate_triggered: bool,
    /// Advance every ensemble by one step.
    pub step: bool,
    /// Compare the closest pair with the threshold.
    pub watch: bool,
}

/// The pair of points that the closest-pair search reports where it found
/// nothing.
pub open spec fn is_nothing(first: Point, second: Point) -> bool {
    first.x == 0 && first.y == 0 && second.x == 0 && second.y == 0
}

/// Two closest points interfere where they are a real match and less than
/// `threshold` apart. The pair that stands for "nothing found" never
/// interferes.
pub open spec fn interferes(first: Point, second: Point, threshold: i32) -> bool {
    !is_nothing(first, second) && threshold > 0 && dist_sq(first, second) < threshold * threshold
}

/// Cell `(x, y)` lies in the square window of half-width `distance` around
/// `object`: not more than `distance` before it and less than `distance` after
/// it, on both axes.
pub open spec fn in_window(object: Point, distance: i32, x: int, y: int) -> bool {
    &&& object.x - distance <= x < object.x + distance
    &&& object.y - distance <= y < object.y + distance
}

/// The mask has a foreground cell in the window around `object`.
pub open spec fn foreground_near(mask: Mask, object: Point, distance: i32) -> bool {
    exists|x: int, y: int|
        0 <= x < mask.spec_width() && 0 <= y < mask.spec_height() && in_window(
            object,
            distance,
            x,
            y,
        ) && #[trigger] mask.at(x, y)
}

/// `r` is the square root of `n`, rounded down.
pub open spec fn is_floor_sqrt(n: int, r: int) -> bool {
    0 <= r && r * r <= n < (r + 1) * (r + 1)
}

/// A distance rounded down is below a whole threshold exactly where the square
/// of the distance is below the square of the threshold.
pub proof fn lemma_floor_sqrt_below(n: int, r: int, threshold: int)
    requires
        is_floor_sqrt(n, r),
    ensures
        r < threshold <==> threshold > 0 && n < threshold * threshold,
{
    if r < threshold {
        assert((r + 1) * (r + 1) <= threshold * threshold) by (nonlinear_arith)
            requires
                0 <= r + 1 <= threshold,
        ;
    } else {
        assert(threshold > 0 ==> threshold * threshold <= r * r) by (nonlinear_arith)
            requires
                threshold <= r,
        ;
    }
}

/// What the closest-pair search reports of an empty contour never interferes,
/// whatever points the other contour holds and whatever the threshold.
pub proof fn lemma_nothing_never_interferes(c1: Seq<Point>, c2: Seq<Point>, threshold: i32)
    requires
        c1.len() == 0 || c2.len() == 0,
    ensures
        !interferes(closest_pair_spec(c1, c2).0, closest_pair_spec(c1, c2).1, threshold),
{
    lemma_closest_pair_of_nothing(c1, c2);
}

/// The effect that goes with a drawn number: the break effect for two, the
/// explosion for every other number.
pub open spec fn effect_for(number: u32) -> EffectType {
    if number == 2 {
        EffectType::Break
    } else {
        EffectType::Explosion
    }
}

/// The mode that follows `mode` on `event`. An event that has no meaning in a
/// mode leaves the mode as it is.
pub open spec fn next_mode(mode: Mode, event: Event) -> Mode {
    match (mode, event) {
        (Mode::Tracking, Event::Close) => Mode::Interfering,
        (Mode::Interfering, Event::Engaged) => Mode::Animating,
        (Mode::Animating, Event::Settled) => Mode::Tracking,
        (Mode::Animating, Event::AdvanceSource) => Mode::Tracking,
        _ => mode,
    }
}

/// What a cycle does in `mode`.
pub open spec fn plan_for(mode: Mode) -> CyclePlan {
    match mode {
        Mode::Tracking => CyclePlan {
            fetch_triggered_source: true,
            repopulate_trigger: true,
            repopulate_triggered: true,
            step: false,
            watch: true,
        },
        Mode::Interfering => CyclePlan {
            fetch_triggered_source: false,
            repopulate_trigger: false,
            repopulate_triggered: false,
            step: false,
            watch: false,
        },
        Mode::Animating => CyclePlan {
            fetch_triggered_source: false,
            repopulate_trigger: true,
            repopulate_triggered: false,
            step: true,
            watch: false,
        },
    }
}

/// A pair that is tracked stays tracked for as long as its objects are apart,
/// and an animating pair is rebuilt only after it has returned to tracking.
pub proof fn lemma_modes(mode: Mode, event: Event)
    ensures
        next_mode(Mode::Tracking, Event::Apart) == Mode::Tracking,
        next_mode(mode, event) == Mode::Animating ==> mode == Mode::Animating || (mode
            == Mode::Interfering && event == Event::Engaged),
        plan_for(mode).repopulate_triggered <==> mode == Mode::Tracking,
        plan_for(mode).step <==> mode == Mode::Animating,
{
}

/// The distance between two points, rounded down to a whole number.
pub fn truncated_distance(first: Point, second: Point) -> (r: u64)
    ensures
        is_floor_sqrt(dist_sq(first, second), r as int),
{
    let n = squared_distance(first, second);
    proof {
        lemma_dist_sq_bounds(first, second);
    }
    let mut lo: u128 = 0;
    let mut hi: u128 = 0x2_0000_0000;
    while hi - lo > 1
        invariant
            lo < hi <= 0x2_0000_0000,
            lo * lo <= n < hi * hi,
        decreases hi - lo,
    {
        let mid: u128 = lo + (hi - lo) / 2;
        assert(mid * mid <= 0x2_0000_0000 * 0x2_0000_0000) by (nonlinear_arith)
            requires
                0 <= mid <= 0x2_0000_0000,
        ;
        if mid * mid <= n {
            lo = mid;
        } else {
            hi = mid;
        }
    }
    lo as u64
}

/// Whether two closest points interfere at `threshold`: whether they are a
/// real match whose distance, rounded down, is below the threshold.
pub fn detect_interference(point_1: Point, point_2: Point, threshold: i32) -> (r: bool)
    ensures
        r == interferes(point_1, point_2, threshold),
{
    if point_1.x == 0 && point_1.y == 0 && point_2.x == 0 && point_2.y == 0 {
        return false;
    }
    if threshold <= 0 {
        return false;
    }
    let distance = truncated_distance(point_1, point_2);
    proof {
        lemma_floor_sqrt_below(dist_sq(point_1, point_2), distance as int, threshold as int);
    }
    distance < threshold as u64
}

/// The whole number `v`, brought into the range from `lo` to `hi`.
pub open spec fn clipped(v: int, lo: int, hi: int) -> int {
    if v < lo {
        lo
    } else if v > hi {
        hi
    } else {
        v
    }
}

/// Brings `v` into the range from `lo` to `hi`.
fn clip(v: i64, lo: i64, hi: i64) -> (r: usize)
    requires
        0 <= lo <= hi <= i32::MAX,
    ensures
        r == clipped(v as int, lo as int, hi as int),
{
    if v < lo {
        lo as usize
    } else if v > hi {
        hi as usize
    } else {
        v as usize
    }
}

/// Whether an object at `object` interferes with the foreground of a mask:
/// whether the mask has a foreground cell in the square window of half-width
/// `distance` around the object.
pub fn detect_interference_near_point(mask: &Mask, object: Point, distance: i32) -> (r: bool)
    ensures
        r == foreground_near(*mask, object, distance),
{
    let width = mask.width();
    let height = mask.height();
    let x_from = clip(object.x as i64 - distance as i64, 0, width as i64);
    let x_to = clip(object.x as i64 + distance as i64, 0, width as i64);
    let y_from = clip(object.y as i64 - distance as i64, 0, height as i64);
    let y_to = clip(object.y as i64 + distance as i64, 0, height as i64);
    let mut y: usize = y_from;
    while y < y_to
        invariant
            width == mask.spec_width(),
            height == mask.spec_height(),
            y_from <= y,
            y_to <= height,
            x_to <= width,
            x_from == clipped(object.x - distance, 0, width as int),
            x_to == clipped(object.x + distance, 0, width as int),
            y_from == clipped(object.y - distance, 0, height as int),
            y_to == clipped(object.y + distance, 0, height as int),
            forall|a: int, b: int|
                x_from <= a < x_to && y_from <= b < y ==> !#[trigger] mask.at(a, b),
        decreases y_to - y,
    {
        let mut x: usize = x_from;
        while x < x_to
            invariant
                width == mask.spec_width(),
                height == mask.spec_height(),
                y_from <= y < y_to,
                y_to <= height,
                x_to <= width,
                x_from <= x,
                x_from == clipped(object.x - distance, 0, width as int),
                x_to == clipped(object.x + distance, 0, width as int),
                y_from == clipped(object.y - distance, 0, height as int),
                y_to == clipped(object.y + distance, 0, height as int),
                forall|a: int, b: int|
                    x_from <= a < x_to && y_from <= b < y ==> !#[trigger] mask.at(a, b),
                forall|a: int| x_from <= a < x ==> !#[trigger] mask.at(a, y as int),
            decreases x_to - x,
        {
            let hit = match mask.get(x, y) {
                Some(cell) => *cell,
                None => false,
            };
            if hit {
                assert(in_window(object, distance, x as int, y as int));
                return true;
            }
            x += 1;
        }
        y += 1;
    }
    proof {
        assert forall|a: int, b: int|
            0 <= a < mask.spec_width() && 0 <= b < mask.spec_height() && in_window(
                object,
                distance,
                a,
                b,
            ) implies !#[trigger] mask.at(a, b) by {
            assert(x_from <= a < x_to && y_from <= b < y_to);
        }
    }
    false
}

/// The effect for a drawn number.
pub fn choose_effect(number: u32) -> (e: EffectType)
    ensures
        e == effect_for(number),
{
    if number == 2 {
        EffectType::Break
    } else {
        EffectType::Explosion
    }
}

/// `rand::Rng::gen_range` on the range from zero up to, and without, `bound`:
/// the next number of the generator that lies in that range. Which number it
/// is depends on the state of the generator.
#[verifier::external_body]
fn draw_below(rng: &mut StdRng, bound: u32) -> (n: u32)
    requires
        bound > 0,
    ensures
        n < bound,
{
    rng.gen_range(0..bound)
}

/// Draws the effect for a triggered ensemble from `rng`. The number is drawn
/// below three, and the effect is the one that goes with it.
pub fn random_effect(rng: &mut StdRng) -> (e: EffectType)
    ensures
        exists|number: u32| number < 3 && e == effect_for(number),
        e == EffectType::Break || e == EffectType::Explosion,
{
    let number = draw_below(rng, 3);
    choose_effect(number)
}

impl Mode {
    /// The mode after `event`.
    pub fn next(self, event: Event) -> (r: Mode)
        ensures
            r == next_mode(self, event),
    {
        match (self, event) {
            (Mode::Tracking, Event::Close) => Mode::Interfering,
            (Mode::Interfering, Event::Engaged) => Mode::Animating,
            (Mode::Animating, Event::Settled) => Mode::Tracking,
            (Mode::Animating, Event::AdvanceSource) => Mode::Tracking,
            _ => self,
        }
    }

    /// What the cycle does in this mode.
    pub fn plan(self) -> (r: CyclePlan)
        ensures
            r == plan_for(self),
    {
        match self {
            Mode::Tracking => CyclePlan {
                fetch_triggered_source: true,
                repopulate_trigger: true,
                repopulate_triggered: true,
                step: false,
                watch: true,
            },
            Mode::Interfering => CyclePlan {
                fetch_triggered_source: false,
                repopulate_trigger: false,
                repopulate_triggered: false,
                step: false,
                watch: false,
            },
            Mode::Animating => CyclePlan {
                fetch_triggered_source: false,
                repopulate_trigger: true,
                repopulate_triggered: false,
                step: true,
                watch: false,
            },
        }
    }

    /// Takes in the closest pair of a cycle: a tracked pair whose points
    /// interfere at `threshold` becomes interfering.
    pub fn observe(self, point_1: Point, point_2: Point, threshold: i32) -> (r: Mode)
        ensures
            r == next_mode(
                self,
                if interferes(point_1, point_2, threshold) {
                    Event::Close
                } else {
                    Event::Apart
                },
            ),
    {
        if detect_interference(point_1, point_2, threshold) {
            self.next(Event::Close)
        } else {
            self.next(Event::Apart)
        }
    }

    /// Starts the animation of an interfering pair: ensemble `slot` is set
    /// animating under the effect that goes with `number`. In any other mode
    /// nothing changes.
    pub fn engage(self, system: &mut ParticleSystem, slot: usize, number: u32) -> (r: Mode)
        requires
            slot < old(system)@.ensembles.len(),
        ensures
            r == next_mode(self, Event::Engaged),
            self == Mode::Interfering ==> final(system)@ == old(system)@.with_animating(
                slot as int,
                true,
            ).with_effect(slot as int, effect_for(number)),
            self != Mode::Interfering ==> final(system)@ == old(system)@,
    {
        match self {
            Mode::Interfering => {
                system.set_animation_status(slot, true);
                system.set_effect_type(slot, choose_effect(number));
            },
            _ => {},
        }
        self.next(Event::Engaged)
    }

    /// Starts the animation of an interfering pair under an effect drawn from
    /// `rng`.
    pub fn engage_random(
        self,
        system: &mut ParticleSystem,
        slot: usize,
        rng: &mut StdRng,
    ) -> (r: Mode)
        requires
            slot < old(system)@.ensembles.len(),
        ensures
            r == next_mode(self, Event::Engaged),
            self == Mode::Interfering ==> exists|number: u32|
                number < 3 && final(system)@ == old(system)@.with_animating(
                    slot as int,
                    true,
                ).with_effect(slot as int, #[trigger] effect_for(number)),
            self != Mode::Interfering ==> final(system)@ == old(system)@,
    {
        match self {
            Mode::Interfering => {
                let number = draw_below(rng, 3);
                self.engage(system, slot, number)
            },
            _ => self.next(Event::Engaged),
        }
    }

    /// Ends the animation of a pair whose triggered ensemble is no longer
    /// animating, or whose source was advanced.
    pub fn settle(self, system: &ParticleSystem, slot: usize, advance_source: bool) -> (r: Mode)
        requires
            slot < system@.ensembles.len(),
        ensures
            r == if advance_source {
                next_mode(self, Event::AdvanceSource)
            } else if !system@.ensembles[slot as int].animating {
                next_mode(self, Event::Settled)
            } else {
                self
            },
    {
        if advance_source {
            self.next(Event::AdvanceSource)
        } else {
            match system.get_animation_status(slot) {
                Ok(false) => self.next(Event::Settled),
                _ => self,
            }
        }
    }
}

} // verus!
