use genetic_orbits::gravity::{GravityRoles, GravitySystem};
use genetic_orbits::collision::{
    planet, BruteForceCollisionDetector, ClearCollisionsInvolvingSceneEntities, CollisionEvent,
    CollisionLayer, CollisionMatrix,
};

#[test]
fn matrix_enable_disable() {
    let mut m = CollisionMatrix::new();
    let a = CollisionLayer::new(0);
    let b = CollisionLayer::new(5);
    let c = CollisionLayer::new(31);
    assert!(!m.can_collide(a, b));
    m.enable_collision(a, b);
    assert!(m.can_collide(a, b));
    assert!(m.can_collide(b, a));
    assert!(!m.can_collide(a, c));
    assert!(!m.can_collide(a, a));
    m.enable_collision(c, c);
    assert!(m.can_collide(c, c));
    m.disable_collision(b, a);
    assert!(!m.can_collide(a, b));
    assert!(!m.can_collide(b, a));
    assert!(m.can_collide(c, c));
    assert_eq!(planet().layer(), 1);
}

fn swept(p: &[(f64, f64, f64, f64, f64)], dt: f64) -> impl Fn(usize, usize) -> bool + '_ {
    move |i, j| {
        let (x1, y1, vx1, vy1, r1) = p[i];
        let (x2, y2, vx2, vy2, r2) = p[j];
        let (nx, ny) = (vx1 - vx2, vy1 - vy2);
        let len_sq = nx * nx + ny * ny;
        let (rx, ry) = (x2 - x1, y2 - y1);
        let sep_sq = if len_sq == 0. {
            rx * rx + ry * ry
        } else {
            let t = ((rx * nx + ry * ny) / len_sq).clamp(0., dt);
            let (px, py) = (x1 + t * nx - x2, y1 + t * ny - y2);
            px * px + py * py
        };
        sep_sq <= (r1 + r2) * (r1 + r2)
    }
}

#[test]
fn detector_reports_tunnelling_pair_once() {
    // Body 0 crosses body 1 within the tick although they are far apart at both ends.
    let bodies = [
        (-10.0, 0.0, 2000.0, 0.0, 1.0),
        (0.0, 0.0, 0.0, 0.0, 1.0),
        (50.0, 50.0, 0.0, 0.0, 1.0),
    ];
    let mut m = CollisionMatrix::new();
    m.enable_collision(planet(), planet());
    let layers = vec![planet(); 3];
    let events = BruteForceCollisionDetector.run(&layers, &m, swept(&bodies, 0.01));
    assert_eq!(events, vec![CollisionEvent(0, 1)]);
}

#[test]
fn detector_respects_layers() {
    let bodies = [(0.0, 0.0, 0.0, 0.0, 1.0), (0.5, 0.0, 0.0, 0.0, 1.0), (1.0, 0.0, 0.0, 0.0, 1.0)];
    let mut m = CollisionMatrix::new();
    m.enable_collision(planet(), planet());
    let other = CollisionLayer::new(2);
    let layers = vec![planet(), other, planet()];
    let events = BruteForceCollisionDetector.run(&layers, &m, swept(&bodies, 0.01));
    assert_eq!(events, vec![CollisionEvent(0, 2)]);
    let all = vec![planet(); 3];
    let events = BruteForceCollisionDetector.run(&all, &m, swept(&bodies, 0.01));
    assert_eq!(events, vec![CollisionEvent(0, 1), CollisionEvent(0, 2), CollisionEvent(1, 2)]);
}

#[test]
fn clear_collisions_in_scene() {
    let mut events = vec![CollisionEvent(0, 1), CollisionEvent(1, 2), CollisionEvent(2, 3)];
    ClearCollisionsInvolvingSceneEntities::run(&mut events, &vec![true, false, false, false]);
    assert_eq!(events, vec![CollisionEvent(1, 2), CollisionEvent(2, 3)]);
}

#[test]
fn gravity_pairs_skip_self_and_follow_roles() {
    let both = GravityRoles { source: true, target: true };
    let pairs = GravitySystem::pairs(&vec![both, both, both]);
    assert_eq!(pairs, vec![(0, 1), (0, 2), (1, 0), (1, 2), (2, 0), (2, 1)]);
    let sun = GravityRoles { source: true, target: false };
    let probe = GravityRoles { source: false, target: true };
    assert_eq!(GravitySystem::pairs(&vec![sun, probe, probe]), vec![(1, 0), (2, 0)]);
    assert!(GravitySystem::pairs(&vec![both]).is_empty());
}
