use genetic_orbits::config::{DatabaseConfig, Range};
use genetic_orbits::draw::DrawLayer;
use genetic_orbits::driver::{ScoreKeeper, TickAction};
use genetic_orbits::generator::{
    generate_child_world, generate_new_world, pick_parent_rank, planets_to_remove, remove_random,
    WorldGenerator,
};

#[test]
fn range_clamps() {
    let r = Range { min: 2, max: 5 };
    assert_eq!(r.clamp_inclusive(0), 2);
    assert_eq!(r.clamp_inclusive(3), 3);
    assert_eq!(r.clamp_inclusive(9), 5);
    assert_eq!(Range::reordered(7, 1), Range { min: 1, max: 7 });
}

#[test]
fn database_config_defaults() {
    let c = DatabaseConfig::default();
    assert!(c.database_path.is_none());
    assert_eq!(c.max_scenarios_to_keep, Some(1000000));
    assert_eq!(c.prune_interval_seconds, 1200);
}

#[test]
fn draw_layer_set_and_get() {
    let mut l = DrawLayer::new(0);
    l.set_layer(9);
    assert_eq!(l.layer(), 9);
}

#[test]
fn parent_rank_choice() {
    assert_eq!(pick_parent_rank(0, 0), None);
    assert_eq!(pick_parent_rank(10, 3), Some(3));
    assert_eq!(pick_parent_rank(10, 10), None);
    assert_eq!(pick_parent_rank(10, 11), None);
}

#[test]
fn removal_count_is_clamped() {
    let limits = Range { min: 1, max: 4 };
    assert_eq!(planets_to_remove(10, 0, &limits), 1);
    assert_eq!(planets_to_remove(10, 7, &limits), 4);
    assert_eq!(planets_to_remove(2, 3, &limits), 2);
    assert_eq!(planets_to_remove(0, 3, &limits), 0);
}

#[test]
fn remove_random_removes_picked() {
    let mut v = vec![10, 20, 30, 40];
    remove_random(&mut v, 2, |n| n - 1);
    assert_eq!(v, vec![10, 20]);
    let mut w = vec![1, 2, 3];
    remove_random(&mut w, 1, |_| 0);
    assert_eq!(w, vec![2, 3]);
}

#[test]
fn new_and_child_worlds() {
    let apart = |a: &i64, b: &i64| (a - b).abs() < 1;
    let fold = |a: &i64, _b: &i64| *a;
    let world = generate_new_world(4, |i| (i as i64) * 10, apart, fold);
    assert_eq!(world, vec![0, 10, 20, 30]);
    let same = generate_new_world(3, |_| 5i64, apart, fold);
    assert_eq!(same, vec![5]);
    let child = generate_child_world(world, 1, |_| 0, |x| x + 1, 2, |i| 100 + i as i64, apart, fold);
    assert_eq!(child, vec![11, 21, 31, 100, 101]);
    let g = WorldGenerator::new(7u8);
    assert_eq!(g.rng, 7);
}

#[test]
fn score_keeper_cycles() {
    let mut k = ScoreKeeper::new(2);
    assert_eq!(k.tick(), TickAction::Score);
    assert_eq!(k.tick(), TickAction::Score);
    assert_eq!(k.elapsed_ticks(), (2, 2));
    assert_eq!(k.tick(), TickAction::Finish);
    assert_eq!(k.ticks_completed, 0);
    assert_eq!(k.tick(), TickAction::Score);
}
