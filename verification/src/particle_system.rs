//! The particle ensembles, one per tracked object.
//!
//! An ensemble is rebuilt from the points of its object while the object is
//! tracked, and left to move while it is animating. The library keeps what is
//! discrete of every particle: its home, its size, the colour it was given and
//! whether it has come to rest. A step takes the rest flags that the motion of
//! the particles produced and settles the animating flag of every ensemble.

use vstd::prelude::*;
use crate::geometry::Point;
use crate::geometry::Size;
use crate::image::Color;
use crate::image::Frame;

verus! {

/// The rule by which the particles of an ensemble move.
#[derive(Clone, Copy, Debug, PartialEq, Eq, Structural)]
pub enum EffectType {
    /// Particles are pushed away from the drive point and drift back home.
    Push,
    /// Particles fall to the floor.
    Break,
    /// Particles fly away from the drive point.
    Explosion,
}

/// One particle: where it belongs, how large it is drawn, its colour, and
/// whether it has come to rest at its home.
#[derive(Clone, Copy, Debug, PartialEq, Eq, Structural)]
pub struct Particle {
    pub window_size: Size,
    pub origin: Point,
    pub size: i32,
    pub color: Color,
    pub on_position: bool,
}

/// Why an operation on the particle system was refused.
#[derive(Clone, Copy, Debug, PartialEq, Eq, Structural)]
pub enum SystemError {
    /// The system has no ensemble of that index.
    NoSuchSlot,
    /// A point of the object does not lie on the frame it is said to come from.
    PointOutsideFrame,
    /// The rest flags do not match the ensembles particle by particle.
    ShapeMismatch,
}

/// The particles of one tracked object with their effect and animating flag.
pub struct Ensemble {
    particles: Vec<Particle>,
    effect: EffectType,
    animating: bool,
}

/// An ensemble as a mathematical value.
pub struct EnsembleView {
    pub particles: Seq<Particle>,
    pub effect: EffectType,
    pub animating: bool,
}

/// All ensembles, with the settings that every new particle takes over.
pub struct ParticleSystem {
    window_size: Size,
    ensembles: Vec<Ensemble>,
    pixel_size: i32,
    pixel_spacing: i32,
    interference_distance: i32,
}

/// A particle system as a mathematical value.
pub struct SystemView {
    pub window_size: Size,
    pub pixel_size: i32,
    pub pixel_spacing: i32,
    pub interference_distance: i32,
    pub ensembles: Seq<EnsembleView>,
}

/// The particle that is made for a point of an object: at home, not yet at rest.
pub open spec fn fresh_particle(
    window_size: Size,
    origin: Point,
    size: i32,
    color: Color,
) -> Particle {
    Particle { window_size, origin, size, color, on_position: false }
}

/// The particles that are made for the points of an object, one per point and
/// in the order of the points, each with the colour of the frame at its point.
pub open spec fn staged_particles(
    window_size: Size,
    size: i32,
    frame: Frame,
    object: Seq<Point>,
) -> Seq<Particle> {
    Seq::new(
        object.len(),
        |i: int|
            fresh_particle(
                window_size,
                object[i],
                size,
                frame.at(object[i].x as int, object[i].y as int),
            ),
    )
}

/// The ensemble that a slot holds before any object was added to it.
pub open spec fn blank_ensemble() -> EnsembleView {
    EnsembleView { particles: Seq::empty(), effect: EffectType::Push, animating: false }
}

/// The rest flags as a sequence of sequences.
pub open spec fn rest_flags(at_rest: Seq<Vec<bool>>) -> Seq<Seq<bool>> {
    Seq::new(at_rest.len(), |i: int| at_rest[i]@)
}

impl EnsembleView {
    /// Some particle of the ensemble is not at rest.
    pub open spec fn unsettled(self) -> bool {
        exists|j: int| 0 <= j < self.particles.len() && !(#[trigger] self.particles[j]).on_position
    }

    /// The ensemble after one step in which particle `j` ended at rest exactly
    /// where `rest[j]` holds. Only the push effect brings particles to rest:
    /// under it the particles take the flags, and the ensemble goes on
    /// animating while some particle is not at rest. Under the other effects
    /// the ensemble is left as it was.
    pub open spec fn stepped(self, rest: Seq<bool>) -> EnsembleView {
        if self.effect == EffectType::Push {
            EnsembleView {
                particles: Seq::new(
                    self.particles.len(),
                    |j: int| Particle { on_position: rest[j], ..self.particles[j] },
                ),
                effect: self.effect,
                animating: rest.contains(false),
            }
        } else {
            self
        }
    }
}

impl SystemView {
    /// The rest flags match the ensembles particle by particle.
    pub open spec fn fits(self, rest: Seq<Seq<bool>>) -> bool {
        &&& rest.len() == self.ensembles.len()
        &&& forall|i: int|
            0 <= i < rest.len() ==> (#[trigger] rest[i]).len() == self.ensembles[i].particles.len()
    }

    /// The system after ensemble `slot` was given new particles: the ensemble
    /// keeps its effect and is not animating.
    pub open spec fn populated(self, slot: int, particles: Seq<Particle>) -> SystemView {
        SystemView {
            ensembles: self.ensembles.update(
                slot,
                EnsembleView { particles, effect: self.ensembles[slot].effect, animating: false },
            ),
            ..self
        }
    }

    /// The system with the animating flag of ensemble `slot` set to `status`.
    pub open spec fn with_animating(self, slot: int, status: bool) -> SystemView {
        SystemView {
            ensembles: self.ensembles.update(
                slot,
                EnsembleView { animating: status, ..self.ensembles[slot] },
            ),
            ..self
        }
    }

    /// The system with the effect of ensemble `slot` set to `effect`.
    pub open spec fn with_effect(self, slot: int, effect: EffectType) -> SystemView {
        SystemView {
            ensembles: self.ensembles.update(slot, EnsembleView { effect, ..self.ensembles[slot] }),
            ..self
        }
    }

    /// The system after one step of every ensemble.
    pub open spec fn stepped(self, rest: Seq<Seq<bool>>) -> SystemView {
        SystemView {
            ensembles: Seq::new(
                self.ensembles.len(),
                |i: int| self.ensembles[i].stepped(rest[i]),
            ),
            ..self
        }
    }
}

/// An ensemble is not animating right after it was given new particles.
pub proof fn lemma_populated_is_not_animating(v: SystemView, slot: int, particles: Seq<Particle>)
    requires
        0 <= slot < v.ensembles.len(),
    ensures
        !v.populated(slot, particles).ensembles[slot].animating,
{
}

/// An ensemble that was set animating is still animating after a step that
/// leaves one of its particles not at rest, whatever its effect.
pub proof fn lemma_unsettled_step_is_animating(v: SystemView, slot: int, rest: Seq<Seq<bool>>)
    requires
        0 <= slot < v.ensembles.len(),
        rest[slot].contains(false),
    ensures
        v.with_animating(slot, true).stepped(rest).ensembles[slot].animating,
{
}

/// An ensemble under the push effect is no longer animating after a step that
/// leaves every one of its particles at rest.
pub proof fn lemma_settled_push_is_not_animating(v: SystemView, slot: int, rest: Seq<Seq<bool>>)
    requires
        0 <= slot < v.ensembles.len(),
        v.ensembles[slot].effect == EffectType::Push,
        forall|j: int| 0 <= j < rest[slot].len() ==> rest[slot][j],
    ensures
        !v.stepped(rest).ensembles[slot].animating,
{
}

/// After a step, an ensemble under the push effect is animating exactly where
/// one of its particles is not at rest.
pub proof fn lemma_push_animates_while_unsettled(v: SystemView, slot: int, rest: Seq<Seq<bool>>)
    requires
        0 <= slot < v.ensembles.len(),
        v.fits(rest),
        v.ensembles[slot].effect == EffectType::Push,
    ensures
        v.stepped(rest).ensembles[slot].animating == v.stepped(rest).ensembles[slot].unsettled(),
{
    let flags = rest[slot];
    let after = v.stepped(rest).ensembles[slot];
    assert(flags.len() == v.ensembles[slot].particles.len());
    if flags.contains(false) {
        let j = choose|j: int| 0 <= j < flags.len() && flags[j] == false;
        assert(!after.particles[j].on_position);
    }
    if after.unsettled() {
        let j = choose|j: int|
            0 <= j < after.particles.len() && !(#[trigger] after.particles[j]).on_position;
        assert(flags[j] == false);
    }
}

/// A step leaves an ensemble under the break or the explosion effect as it
/// was: no particle of it comes to rest, and its animating flag stays.
pub proof fn lemma_only_push_settles(v: SystemView, slot: int, rest: Seq<Seq<bool>>)
    requires
        0 <= slot < v.ensembles.len(),
        v.ensembles[slot].effect != EffectType::Push,
    ensures
        v.stepped(rest).ensembles[slot] == v.ensembles[slot],
{
}

/// The home of a particle, its size and its colour are the same after any step.
pub proof fn lemma_step_keeps_homes(v: SystemView, rest: Seq<Seq<bool>>, slot: int, j: int)
    requires
        0 <= slot < v.ensembles.len(),
        0 <= j < v.ensembles[slot].particles.len(),
    ensures
        v.stepped(rest).ensembles[slot].particles.len() == v.ensembles[slot].particles.len(),
        v.stepped(rest).ensembles[slot].particles[j].origin == v.ensembles[slot].particles[j].origin,
        v.stepped(rest).ensembles[slot].particles[j].size == v.ensembles[slot].particles[j].size,
        v.stepped(rest).ensembles[slot].particles[j].color == v.ensembles[slot].particles[j].color,
        v.stepped(rest).ensembles[slot].particles[j].window_size
            == v.ensembles[slot].particles[j].window_size,
{
}

impl Particle {
    /// Makes the particle for a point of an object.
    pub fn new(window_size: Size, origin: Point, size: i32, color: Color) -> (p: Particle)
        ensures
            p == fresh_particle(window_size, origin, size, color),
    {
        Particle { window_size, origin, size, color, on_position: false }
    }
}

impl View for Ensemble {
    type V = EnsembleView;

    closed spec fn view(&self) -> EnsembleView {
        EnsembleView { particles: self.particles@, effect: self.effect, animating: self.animating }
    }
}

impl Ensemble {
    /// The particles of the ensemble, in the order of the points they were made for.
    pub fn particles(&self) -> (r: &Vec<Particle>)
        ensures
            r@ == self@.particles,
    {
        &self.particles
    }

    pub fn effect(&self) -> (r: EffectType)
        ensures
            r == self@.effect,
    {
        self.effect
    }

    pub fn animating(&self) -> (r: bool)
        ensures
            r == self@.animating,
    {
        self.animating
    }
}

impl View for ParticleSystem {
    type V = SystemView;

    closed spec fn view(&self) -> SystemView {
        SystemView {
            window_size: self.window_size,
            pixel_size: self.pixel_size,
            pixel_spacing: self.pixel_spacing,
            interference_distance: self.interference_distance,
            ensembles: Seq::new(self.ensembles@.len(), |i: int| self.ensembles@[i]@),
        }
    }
}

impl ParticleSystem {
    /// A system without ensembles.
    pub fn new(
        window_size: Size,
        pixel_size: i32,
        pixel_spacing: i32,
        interference_distance: i32,
    ) -> (s: ParticleSystem)
        ensures
            s@ == (SystemView {
                window_size,
                pixel_size,
                pixel_spacing,
                interference_distance,
                ensembles: Seq::empty(),
            }),
    {
        let s = ParticleSystem {
            window_size,
            ensembles: Vec::new(),
            pixel_size,
            pixel_spacing,
            interference_distance,
        };
        assert(s@.ensembles =~= Seq::empty());
        s
    }

    /// Replaces the ensembles by `amount` blank ones; by none where `amount` is
    /// not positive.
    pub fn init(&mut self, amount: i32)
        ensures
            final(self)@.ensembles.len() == if amount > 0 {
                amount as int
            } else {
                0
            },
            forall|i: int|
                0 <= i < final(self)@.ensembles.len() ==> #[trigger] final(self)@.ensembles[i]
                    == blank_ensemble(),
            final(self)@ == (SystemView { ensembles: final(self)@.ensembles, ..old(self)@ }),
    {
        let mut ensembles: Vec<Ensemble> = Vec::new();
        let mut i: i32 = 0;
        while i < amount
            invariant
                0 <= i,
                i <= amount || i == 0,
                ensembles@.len() == i,
                forall|k: int| 0 <= k < i ==> (#[trigger] ensembles@[k])@ == blank_ensemble(),
            decreases amount - i,
        {
            ensembles.push(
                Ensemble { particles: Vec::new(), effect: EffectType::Push, animating: false },
            );
            i += 1;
        }
        self.ensembles = ensembles;
    }

    /// The number of ensembles.
    pub fn slot_count(&self) -> (n: usize)
        ensures
            n == self@.ensembles.len(),
    {
        self.ensembles.len()
    }

    pub fn window_size(&self) -> (r: Size)
        ensures
            r == self@.window_size,
    {
        self.window_size
    }

    pub fn pixel_size(&self) -> (r: i32)
        ensures
            r == self@.pixel_size,
    {
        self.pixel_size
    }

    pub fn pixel_spacing(&self) -> (r: i32)
        ensures
            r == self@.pixel_spacing,
    {
        self.pixel_spacing
    }

    /// The squared radius within which the drive point pushes particles.
    pub fn interference_distance(&self) -> (r: i32)
        ensures
            r == self@.interference_distance,
    {
        self.interference_distance
    }

    /// The ensemble of a slot, if there is such a slot.
    pub fn ensemble(&self, index: usize) -> (r: Option<&Ensemble>)
        ensures
            r is Some <==> index < self@.ensembles.len(),
            r matches Some(e) ==> e@ == self@.ensembles[index as int],
    {
        if index < self.ensembles.len() {
            Some(&self.ensembles[index])
        } else {
            None
        }
    }

    /// Gives ensemble `index` the particles of an object: one particle per
    /// point, in the order of the points, coloured as `frame` is at the point.
    /// The ensemble is then not animating. Where a point does not lie on the
    /// frame, or there is no such ensemble, nothing changes.
    pub fn add_object(&mut self, frame: &Frame, object: &Vec<Point>, index: usize) -> (r: Result<
        (),
        SystemError,
    >)
        ensures
            r is Ok <==> index < old(self)@.ensembles.len() && forall|i: int|
                0 <= i < object.len() ==> frame.holds(#[trigger] object@[i]),
            r == Err::<(), SystemError>(SystemError::NoSuchSlot) <==> index >= old(
                self,
            )@.ensembles.len(),
            r is Ok ==> final(self)@ == old(self)@.populated(
                index as int,
                staged_particles(old(self)@.window_size, old(self)@.pixel_size, *frame, object@),
            ),
            r is Err ==> final(self)@ == old(self)@,
            r is Err ==> r == Err::<(), SystemError>(SystemError::NoSuchSlot) || r == Err::<
                (),
                SystemError,
            >(SystemError::PointOutsideFrame),
    {
        if index >= self.ensembles.len() {
            return Err(SystemError::NoSuchSlot);
        }
        let mut staged: Vec<Particle> = Vec::new();
        let mut i: usize = 0;
        while i < object.len()
            invariant
                index < self.ensembles@.len(),
                i <= object.len(),
                staged@.len() == i,
                forall|k: int| 0 <= k < i ==> frame.holds(#[trigger] object@[k]),
                forall|k: int|
                    0 <= k < i ==> #[trigger] staged@[k] == fresh_particle(
                        self.window_size,
                        object@[k],
                        self.pixel_size,
                        frame.at(object@[k].x as int, object@[k].y as int),
                    ),
            decreases object.len() - i,
        {
            let point = object[i];
            match frame.sample(point) {
                None => {
                    return Err(SystemError::PointOutsideFrame);
                },
                Some(color) => {
                    staged.push(Particle::new(self.window_size, point, self.pixel_size, *color));
                },
            }
            i += 1;
        }
        let effect = self.ensembles[index].effect;
        let ghost before = self@;
        self.ensembles[index] = Ensemble { particles: staged, effect, animating: false };
        proof {
            let want = staged_particles(before.window_size, before.pixel_size, *frame, object@);
            assert(staged@ =~= want);
            assert(self@.ensembles =~= before.populated(index as int, want).ensembles);
        }
        Ok(())
    }

    /// Ends one step of every ensemble. `at_rest[i][j]` tells whether particle
    /// `j` of ensemble `i` ended the step at rest. An ensemble under the push
    /// effect takes the flags and is animating after the step exactly where
    /// one of its particles is not at rest; an ensemble under another effect
    /// stays as it was. Where the flags do not match the ensembles particle by
    /// particle, nothing changes.
    pub fn update(&mut self, at_rest: &Vec<Vec<bool>>) -> (r: Result<(), SystemError>)
        ensures
            r is Ok <==> old(self)@.fits(rest_flags(at_rest@)),
            r is Ok ==> final(self)@ == old(self)@.stepped(rest_flags(at_rest@)),
            r is Err ==> final(self)@ == old(self)@ && r == Err::<(), SystemError>(
                SystemError::ShapeMismatch,
            ),
    {
        let ghost before = self@;
        let ghost rest = rest_flags(at_rest@);
        let count = self.ensembles.len();
        if at_rest.len() != count {
            return Err(SystemError::ShapeMismatch);
        }
        let mut staged: Vec<Ensemble> = Vec::new();
        let mut i: usize = 0;
        while i < count
            invariant
                count == self.ensembles@.len(),
                count == at_rest@.len(),
                self@ == before,
                rest == rest_flags(at_rest@),
                i <= count,
                staged@.len() == i,
                forall|k: int|
                    0 <= k < i ==> (#[trigger] rest[k]).len() == before.ensembles[k].particles.len(),
                forall|k: int|
                    0 <= k < i ==> (#[trigger] staged@[k])@ == before.ensembles[k].stepped(rest[k]),
            decreases count - i,
        {
            let flags = &at_rest[i];
            let ensemble = &self.ensembles[i];
            assert(ensemble@ == before.ensembles[i as int]);
            assert(flags@ == rest[i as int]);
            let n = ensemble.particles.len();
            if flags.len() != n {
                return Err(SystemError::ShapeMismatch);
            }
            let pushing = match ensemble.effect {
                EffectType::Push => true,
                _ => false,
            };
            let mut particles: Vec<Particle> = Vec::new();
            let mut unsettled = false;
            let mut j: usize = 0;
            while j < n
                invariant
                    n == ensemble.particles@.len(),
                    n == flags@.len(),
                    j <= n,
                    particles@.len() == j,
                    forall|k: int|
                        0 <= k < j ==> #[trigger] particles@[k] == if pushing {
                            Particle { on_position: flags@[k], ..ensemble.particles@[k] }
                        } else {
                            ensemble.particles@[k]
                        },
                    unsettled == flags@.take(j as int).contains(false),
                decreases n - j,
            {
                let old_particle = ensemble.particles[j];
                let settled = flags[j];
                particles.push(
                    Particle {
                        window_size: old_particle.window_size,
                        origin: old_particle.origin,
                        size: old_particle.size,
                        color: old_particle.color,
                        on_position: if pushing {
                            settled
                        } else {
                            old_particle.on_position
                        },
                    },
                );
                proof {
                    let shorter = flags@.take(j as int);
                    let longer = flags@.take(j + 1);
                    assert(longer =~= shorter.push(settled));
                    if shorter.contains(false) {
                        let w = choose|w: int| 0 <= w < shorter.len() && shorter[w] == false;
                        assert(longer[w] == false);
                    }
                    if !settled {
                        assert(longer[j as int] == false);
                    }
                }
                if !settled {
                    unsettled = true;
                }
                j += 1;
            }
            assert(flags@.take(n as int) =~= flags@);
            let animating = if pushing {
                unsettled
            } else {
                ensemble.animating
            };
            let next = Ensemble { particles, effect: ensemble.effect, animating };
            proof {
                let want = before.ensembles[i as int].stepped(rest[i as int]);
                assert(next@.particles =~= want.particles);
            }
            staged.push(next);
            i += 1;
        }
        self.ensembles = staged;
        proof {
            assert(before.fits(rest));
            assert(self@.ensembles =~= before.stepped(rest).ensembles);
        }
        Ok(())
    }

    /// Whether ensemble `index` is animating.
    pub fn get_animation_status(&self, index: usize) -> (r: Result<bool, SystemError>)
        ensures
            r == if index < self@.ensembles.len() {
                Ok::<bool, SystemError>(self@.ensembles[index as int].animating)
            } else {
                Err::<bool, SystemError>(SystemError::NoSuchSlot)
            },
    {
        if index < self.ensembles.len() {
            Ok(self.ensembles[index].animating)
        } else {
            Err(SystemError::NoSuchSlot)
        }
    }

    /// Sets the animating flag of ensemble `index`.
    pub fn set_animation_status(&mut self, index: usize, status: bool)
        requires
            index < old(self)@.ensembles.len(),
        ensures
            final(self)@ == old(self)@.with_animating(index as int, status),
    {
        let ghost before = self@;
        self.ensembles[index].animating = status;
        proof {
            assert(self@.ensembles =~= before.with_animating(index as int, status).ensembles);
        }
    }

    /// Sets the effect of ensemble `index`.
    pub fn set_effect_type(&mut self, index: usize, effect_type: EffectType)
        requires
            index < old(self)@.ensembles.len(),
        ensures
            final(self)@ == old(self)@.with_effect(index as int, effect_type),
    {
        let ghost before = self@;
        self.ensembles[index].effect = effect_type;
        proof {
            assert(self@.ensembles =~= before.with_effect(index as int, effect_type).ensembles);
        }
    }
}

} // verus!
