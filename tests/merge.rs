use genetic_orbits::collision::CollisionEvent;
use genetic_orbits::deletion::{compact, ClearCurrentScene, DeleteSystem};
use genetic_orbits::merge::{merge_overlapping, DeleteCollidedPlanets, MergeCollidedPlanets, MergeStep};

#[derive(Debug, Clone, PartialEq)]
struct Planet {
    position: (f32, f32),
    velocity: (f32, f32),
    mass: f32,
}

fn radius(p: &Planet) -> f32 {
    (3. * p.mass / (4. * std::f32::consts::PI * 0.1)).cbrt()
}

fn overlaps(a: &Planet, b: &Planet) -> bool {
    let total = radius(a) + radius(b);
    let dx = a.position.0 - b.position.0;
    let dy = a.position.1 - b.position.1;
    dx * dx + dy * dy < total * total
}

fn merge(a: &Planet, b: &Planet) -> Planet {
    let total = a.mass + b.mass;
    let fa = a.mass / total;
    let fb = b.mass / total;
    Planet {
        position: (a.position.0 * fa + b.position.0 * fb, a.position.1 * fa + b.position.1 * fb),
        velocity: (a.velocity.0 * fa + b.velocity.0 * fb, a.velocity.1 * fa + b.velocity.1 * fb),
        mass: total,
    }
}

fn planet(x: f32, y: f32, vx: f32, vy: f32, mass: f32) -> Planet {
    Planet { position: (x, y), velocity: (vx, vy), mass }
}

#[test]
fn test_merge_overlapping_simple() {
    let mut planets = vec![
        planet(0., 0., 0., 0., 1.),
        planet(2., -10., 3., 6., 8.),
        planet(5., 5., 0., 0., 1.),
        planet(-2., -12., -7., -2., 24.),
    ];
    let expected = vec![
        planet(0., 0., 0., 0., 1.),
        planet(-1., -11.5, -4.5, 0., 32.),
        planet(5., 5., 0., 0., 1.),
    ];
    merge_overlapping(&mut planets, overlaps, merge);
    assert_eq!(planets, expected);
}

#[test]
fn merge_overlapping_twice_is_noop() {
    let mut planets: Vec<Planet> = (0..40)
        .map(|i| {
            let f = i as f32;
            planet((f * 7.3) % 13.0, (f * 3.1) % 11.0, 0., 0., 1. + (i % 5) as f32)
        })
        .collect();
    merge_overlapping(&mut planets, overlaps, merge);
    for i in 0..planets.len() {
        for j in i + 1..planets.len() {
            assert!(!overlaps(&planets[i], &planets[j]));
        }
    }
    let once = planets.clone();
    merge_overlapping(&mut planets, overlaps, merge);
    assert_eq!(planets, once);
}

#[test]
fn merge_overlapping_empty_and_single() {
    let mut none: Vec<Planet> = vec![];
    merge_overlapping(&mut none, overlaps, merge);
    assert!(none.is_empty());
    let mut one = vec![planet(1., 1., 0., 0., 3.)];
    merge_overlapping(&mut one, overlaps, merge);
    assert_eq!(one.len(), 1);
}

#[test]
fn plan_follows_redirects() {
    // 0 absorbs 1, then 2 absorbs 0 (through 1's redirect), then a repeat is skipped,
    // and an event naming a body that does not exist is skipped.
    let events = vec![
        CollisionEvent(0, 1),
        CollisionEvent(2, 1),
        CollisionEvent(0, 2),
        CollisionEvent(3, 9),
        CollisionEvent(3, 4),
    ];
    let plan = MergeCollidedPlanets::plan(5, &events);
    assert_eq!(
        plan.steps,
        vec![
            MergeStep { keep: 2, absorbed: 0 },
            MergeStep { keep: 3, absorbed: 4 },
        ]
        .into_iter()
        .fold(vec![MergeStep { keep: 0, absorbed: 1 }], |mut v, s| {
            v.push(s);
            v
        })
    );
    assert_eq!(plan.successor, vec![2, 2, 2, 3, 3]);
    assert_eq!(DeleteCollidedPlanets::marks(&plan.successor), vec![true, true, false, false, true]);
}

#[test]
fn plan_with_no_events() {
    let plan = MergeCollidedPlanets::plan(3, &vec![]);
    assert!(plan.steps.is_empty());
    assert_eq!(plan.successor, vec![0, 1, 2]);
}

#[test]
fn compaction_keeps_order() {
    let mut v = vec!['a', 'b', 'c', 'd', 'e'];
    compact(&mut v, &vec![false, true, true, false, true]);
    assert_eq!(v, vec!['a', 'd']);
    let mut w = vec![1, 2, 3];
    DeleteSystem::run(&mut w, &vec![false, false, false]);
    assert_eq!(w, vec![1, 2, 3]);
    ClearCurrentScene::run(&mut w, &vec![true, true, true]);
    assert!(w.is_empty());
}

#[test]
fn merge_overlapping_keeps_one_body() {
    let mut planets = vec![
        planet(0., 0., 0., 0., 1.),
        planet(0.1, 0., 0., 0., 1.),
        planet(0.2, 0., 0., 0., 2.),
    ];
    merge_overlapping(&mut planets, overlaps, merge);
    assert_eq!(planets.len(), 1);
    assert_eq!(planets[0].mass, 4.);
}
