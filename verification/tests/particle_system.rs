use particle_interference::geometry::Point;
use particle_interference::geometry::Size;
use particle_interference::image::Color;
use particle_interference::image::Frame;
use particle_interference::image::Grid;
use particle_interference::particle_system::EffectType;
use particle_interference::particle_system::Particle;
use particle_interference::particle_system::ParticleSystem;
use particle_interference::particle_system::SystemError;

fn shade(v: u8) -> Color {
    Color { blue: v, green: v.wrapping_add(1), red: v.wrapping_add(2) }
}

/// A frame whose pixel at (x, y) has the shade 10 * y + x.
fn frame(width: usize, height: usize) -> Frame {
    let mut cells = Vec::new();
    for y in 0..height {
        for x in 0..width {
            cells.push(shade((10 * y + x) as u8));
        }
    }
    Grid::new(width, height, cells).unwrap()
}

fn system(slots: i32) -> ParticleSystem {
    let mut s = ParticleSystem::new(Size::new(8, 6), 10, 0, 10000);
    s.init(slots);
    s
}

fn pts(raw: &[(i32, i32)]) -> Vec<Point> {
    raw.iter().map(|&(x, y)| Point::new(x, y)).collect()
}

fn rest_of(s: &ParticleSystem, slot: usize) -> Vec<bool> {
    s.ensemble(slot).unwrap().particles().iter().map(|p| p.on_position).collect()
}

#[test]
fn new_system_has_no_ensembles() {
    let s = ParticleSystem::new(Size::new(960, 540), 10, 2, 10000);
    assert_eq!(s.slot_count(), 0);
    assert_eq!(s.window_size(), Size::new(960, 540));
    assert_eq!(s.pixel_size(), 10);
    assert_eq!(s.pixel_spacing(), 2);
    assert_eq!(s.interference_distance(), 10000);
    assert_eq!(s.get_animation_status(0), Err(SystemError::NoSuchSlot));
    assert!(s.ensemble(0).is_none());
}

#[test]
fn init_makes_blank_ensembles() {
    let s = system(2);
    assert_eq!(s.slot_count(), 2);
    for slot in 0..2 {
        let e = s.ensemble(slot).unwrap();
        assert!(e.particles().is_empty());
        assert_eq!(e.effect(), EffectType::Push);
        assert!(!e.animating());
        assert_eq!(s.get_animation_status(slot), Ok(false));
    }
    assert_eq!(s.get_animation_status(2), Err(SystemError::NoSuchSlot));
    assert_eq!(s.window_size(), Size::new(8, 6));
}

#[test]
fn init_with_a_count_that_is_not_positive_makes_none() {
    assert_eq!(system(0).slot_count(), 0);
    assert_eq!(system(-3).slot_count(), 0);
    let mut s = system(3);
    s.init(1);
    assert_eq!(s.slot_count(), 1);
}

#[test]
fn init_forgets_what_was_there() {
    let mut s = system(2);
    s.add_object(&frame(8, 6), &pts(&[(1, 1)]), 1).unwrap();
    s.set_animation_status(1, true);
    s.set_effect_type(1, EffectType::Break);
    s.init(2);
    let e = s.ensemble(1).unwrap();
    assert!(e.particles().is_empty());
    assert_eq!(e.effect(), EffectType::Push);
    assert!(!e.animating());
}

#[test]
fn particle_starts_at_home_and_not_at_rest() {
    let p = Particle::new(Size::new(8, 6), Point::new(3, 4), 10, shade(7));
    assert_eq!(p.window_size, Size::new(8, 6));
    assert_eq!(p.origin, Point::new(3, 4));
    assert_eq!(p.size, 10);
    assert_eq!(p.color, shade(7));
    assert!(!p.on_position);
}

#[test]
fn add_object_makes_one_particle_per_point() {
    let mut s = system(2);
    let object = pts(&[(0, 0), (7, 5), (3, 2), (3, 2)]);
    assert_eq!(s.add_object(&frame(8, 6), &object, 1), Ok(()));
    let e = s.ensemble(1).unwrap();
    let expected: Vec<Particle> = vec![
        Particle::new(Size::new(8, 6), Point::new(0, 0), 10, shade(0)),
        Particle::new(Size::new(8, 6), Point::new(7, 5), 10, shade(57)),
        Particle::new(Size::new(8, 6), Point::new(3, 2), 10, shade(23)),
        Particle::new(Size::new(8, 6), Point::new(3, 2), 10, shade(23)),
    ];
    assert_eq!(e.particles(), &expected);
    assert!(!e.animating());
    assert!(s.ensemble(0).unwrap().particles().is_empty());
}

#[test]
fn add_object_keeps_the_effect_and_clears_animating() {
    let mut s = system(2);
    s.set_effect_type(0, EffectType::Explosion);
    s.set_animation_status(0, true);
    assert_eq!(s.get_animation_status(0), Ok(true));
    s.add_object(&frame(8, 6), &pts(&[(1, 1)]), 0).unwrap();
    assert_eq!(s.get_animation_status(0), Ok(false));
    assert_eq!(s.ensemble(0).unwrap().effect(), EffectType::Explosion);
}

#[test]
fn add_object_without_points_empties_the_ensemble() {
    let mut s = system(1);
    s.add_object(&frame(8, 6), &pts(&[(1, 1), (2, 2)]), 0).unwrap();
    s.set_animation_status(0, true);
    assert_eq!(s.add_object(&frame(8, 6), &Vec::new(), 0), Ok(()));
    assert!(s.ensemble(0).unwrap().particles().is_empty());
    assert_eq!(s.get_animation_status(0), Ok(false));
}

#[test]
fn add_object_with_a_point_off_the_frame_changes_nothing() {
    let mut s = system(2);
    s.add_object(&frame(8, 6), &pts(&[(1, 1), (2, 2)]), 0).unwrap();
    s.set_animation_status(0, true);
    let before = s.ensemble(0).unwrap().particles().clone();
    for bad in [(8, 0), (0, 6), (-1, 0), (0, -1), (100, 100)] {
        let object = vec![Point::new(4, 4), Point::new(bad.0, bad.1), Point::new(5, 5)];
        assert_eq!(
            s.add_object(&frame(8, 6), &object, 0),
            Err(SystemError::PointOutsideFrame)
        );
        assert_eq!(s.ensemble(0).unwrap().particles(), &before);
        assert_eq!(s.get_animation_status(0), Ok(true));
    }
    // A frame without pixels holds no point at all.
    assert_eq!(
        s.add_object(&Grid::empty(), &pts(&[(0, 0)]), 0),
        Err(SystemError::PointOutsideFrame)
    );
}

#[test]
fn add_object_to_a_slot_that_is_not_there() {
    let mut s = system(2);
    assert_eq!(
        s.add_object(&frame(8, 6), &pts(&[(1, 1)]), 2),
        Err(SystemError::NoSuchSlot)
    );
    assert_eq!(
        s.add_object(&frame(8, 6), &pts(&[(100, 100)]), 2),
        Err(SystemError::NoSuchSlot)
    );
    assert!(s.ensemble(0).unwrap().particles().is_empty());
    assert!(s.ensemble(1).unwrap().particles().is_empty());
}

#[test]
fn animating_is_false_after_populate_and_follows_the_rest_flags_under_push() {
    let mut s = system(2);
    s.add_object(&frame(8, 6), &pts(&[(1, 1), (2, 2), (3, 3)]), 1).unwrap();
    assert_eq!(s.get_animation_status(1), Ok(false));
    s.set_animation_status(1, true);
    assert_eq!(s.get_animation_status(1), Ok(true));
    // One step that leaves a particle unsettled.
    assert_eq!(s.update(&vec![vec![], vec![true, false, true]]), Ok(()));
    assert_eq!(s.get_animation_status(1), Ok(true));
    assert_eq!(rest_of(&s, 1), vec![true, false, true]);
    // One step after which every particle is at rest.
    assert_eq!(s.update(&vec![vec![], vec![true, true, true]]), Ok(()));
    assert_eq!(s.get_animation_status(1), Ok(false));
    assert_eq!(rest_of(&s, 1), vec![true, true, true]);
    // And animating again as soon as one is pushed off its home.
    assert_eq!(s.update(&vec![vec![], vec![false, true, true]]), Ok(()));
    assert_eq!(s.get_animation_status(1), Ok(true));
}

#[test]
fn push_ensemble_without_particles_is_not_animating_after_a_step() {
    let mut s = system(1);
    s.set_animation_status(0, true);
    assert_eq!(s.update(&vec![vec![]]), Ok(()));
    assert_eq!(s.get_animation_status(0), Ok(false));
}

#[test]
fn break_and_explosion_keep_their_animating_flag() {
    for effect in [EffectType::Break, EffectType::Explosion] {
        let mut s = system(1);
        s.add_object(&frame(8, 6), &pts(&[(1, 1), (2, 2)]), 0).unwrap();
        s.set_effect_type(0, effect);
        assert_eq!(s.update(&vec![vec![false, false]]), Ok(()));
        assert_eq!(s.get_animation_status(0), Ok(false));
        s.set_animation_status(0, true);
        assert_eq!(s.update(&vec![vec![true, true]]), Ok(()));
        assert_eq!(s.get_animation_status(0), Ok(true));
        assert_eq!(s.update(&vec![vec![false, true]]), Ok(()));
        assert_eq!(s.get_animation_status(0), Ok(true));
        assert_eq!(s.ensemble(0).unwrap().effect(), effect);
    }
}

#[test]
fn only_the_push_effect_brings_particles_to_rest() {
    for effect in [EffectType::Break, EffectType::Explosion] {
        let mut s = system(2);
        s.add_object(&frame(8, 6), &pts(&[(1, 1), (2, 2)]), 0).unwrap();
        s.add_object(&frame(8, 6), &pts(&[(3, 3), (4, 4)]), 1).unwrap();
        s.set_effect_type(1, effect);
        assert_eq!(s.update(&vec![vec![true, true], vec![true, true]]), Ok(()));
        assert_eq!(rest_of(&s, 0), vec![true, true]);
        assert_eq!(rest_of(&s, 1), vec![false, false]);
        // Particles that were at rest under the push effect stay so.
        s.set_effect_type(0, effect);
        assert_eq!(s.update(&vec![vec![false, false], vec![true, false]]), Ok(()));
        assert_eq!(rest_of(&s, 0), vec![true, true]);
        assert_eq!(rest_of(&s, 1), vec![false, false]);
        // The shape of the flags is held to the ensembles all the same.
        assert_eq!(
            s.update(&vec![vec![false, false], vec![true]]),
            Err(SystemError::ShapeMismatch)
        );
    }
}

#[test]
fn update_keeps_home_size_and_colour() {
    let mut s = system(1);
    s.add_object(&frame(8, 6), &pts(&[(1, 1), (6, 4)]), 0).unwrap();
    let before = s.ensemble(0).unwrap().particles().clone();
    s.update(&vec![vec![true, false]]).unwrap();
    let after = s.ensemble(0).unwrap().particles();
    assert_eq!(after.len(), 2);
    for (a, b) in after.iter().zip(before.iter()) {
        assert_eq!(a.origin, b.origin);
        assert_eq!(a.size, b.size);
        assert_eq!(a.color, b.color);
        assert_eq!(a.window_size, b.window_size);
    }
    assert!(after[0].on_position);
    assert!(!after[1].on_position);
}

#[test]
fn update_with_flags_of_the_wrong_shape_changes_nothing() {
    let mut s = system(2);
    s.add_object(&frame(8, 6), &pts(&[(1, 1), (2, 2)]), 0).unwrap();
    s.set_animation_status(0, true);
    let wrong: Vec<Vec<Vec<bool>>> = vec![
        vec![],
        vec![vec![true, true]],
        vec![vec![true, true], vec![], vec![]],
        vec![vec![true], vec![]],
        vec![vec![true, true, true], vec![]],
        vec![vec![true, true], vec![true]],
    ];
    for flags in wrong {
        assert_eq!(s.update(&flags), Err(SystemError::ShapeMismatch));
        assert_eq!(s.get_animation_status(0), Ok(true));
        assert_eq!(rest_of(&s, 0), vec![false, false]);
    }
    assert_eq!(s.update(&vec![vec![true, true], vec![]]), Ok(()));
    assert_eq!(s.get_animation_status(0), Ok(false));
}

#[test]
fn update_of_a_system_without_ensembles() {
    let mut s = system(0);
    assert_eq!(s.update(&Vec::new()), Ok(()));
    assert_eq!(s.update(&vec![vec![]]), Err(SystemError::ShapeMismatch));
}

#[test]
fn setters_touch_one_ensemble_only() {
    let mut s = system(3);
    s.set_animation_status(1, true);
    s.set_effect_type(2, EffectType::Break);
    assert_eq!(s.get_animation_status(0), Ok(false));
    assert_eq!(s.get_animation_status(1), Ok(true));
    assert_eq!(s.get_animation_status(2), Ok(false));
    assert_eq!(s.ensemble(0).unwrap().effect(), EffectType::Push);
    assert_eq!(s.ensemble(1).unwrap().effect(), EffectType::Push);
    assert_eq!(s.ensemble(2).unwrap().effect(), EffectType::Break);
    s.set_animation_status(1, false);
    assert_eq!(s.get_animation_status(1), Ok(false));
}
