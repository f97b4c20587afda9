use genetic_orbits::driver::record_run;
use genetic_orbits::generator::pick_parent;
use genetic_orbits::storage::{Lineage, MemoryStorage, StorageError};

fn filled() -> MemoryStorage<&'static str> {
    let mut store = MemoryStorage::new();
    for (world, score) in [
        ("a", 80u64),
        ("b", 25),
        ("c", 30),
        ("d", 80),
        ("e", 15),
        ("f", 30),
    ] {
        store.add_root_scenario(world, score).unwrap();
    }
    store
}

#[test]
fn memory_add_root() {
    let mut store: MemoryStorage<&str> = MemoryStorage::new();
    let l = store.add_root_scenario("w", 54).unwrap();
    assert_eq!(l.id, l.family);
    assert_eq!(l.parent, None);
    assert_eq!(l.generation, 0);
    assert_eq!(store.num_scenarios(), 1);
    let row = store.get_nth_scenario_by_score(0).unwrap();
    assert_eq!(row.world, "w");
    assert_eq!(row.score, 54);
}

#[test]
fn memory_add_child() {
    let mut store: MemoryStorage<&str> = MemoryStorage::new();
    let parent = Lineage { id: 34, family: 87, parent: Some(60), generation: 10 };
    let l = store.add_child_scenario("w", 987, &parent).unwrap();
    assert_eq!(l.family, 87);
    assert_eq!(l.parent, Some(34));
    assert_eq!(l.generation, 11);
    let full = Lineage { id: 1, family: 1, parent: None, generation: u64::MAX };
    assert_eq!(
        store.add_child_scenario("x", 1, &full),
        Err(StorageError::GenerationOverflow)
    );
    assert_eq!(store.num_scenarios(), 1);
}

#[test]
fn memory_ranking_breaks_ties_by_id() {
    let store = filled();
    let order: Vec<(u64, u64)> = (0..6)
        .map(|i| {
            let r = store.get_nth_scenario_by_score(i).unwrap();
            (r.score, r.lineage.id)
        })
        .collect();
    assert_eq!(order, vec![(80, 1), (80, 4), (30, 3), (30, 6), (25, 2), (15, 5)]);
    assert!(store.get_nth_scenario_by_score(6).is_none());
    let again: Vec<u64> = (0..6)
        .map(|i| store.get_nth_scenario_by_score(i).unwrap().lineage.id)
        .collect();
    assert_eq!(again, vec![1, 4, 3, 6, 2, 5]);
}

#[test]
fn memory_prune_keeps_top() {
    let mut store = filled();
    assert_eq!(store.keep_top_scenarios_by_score(4), 2);
    assert_eq!(store.num_scenarios(), 4);
    let ids: Vec<u64> = (0..4)
        .map(|i| store.get_nth_scenario_by_score(i).unwrap().lineage.id)
        .collect();
    assert_eq!(ids, vec![1, 4, 3, 6]);
    assert!(store.get_nth_scenario_by_score(4).is_none());
    assert_eq!(store.keep_top_scenarios_by_score(10), 0);
    assert_eq!(store.keep_top_scenarios_by_score(0), 4);
    assert_eq!(store.num_scenarios(), 0);
}

#[test]
fn memory_lineage_through_generations() {
    let mut store: MemoryStorage<&str> = MemoryStorage::new();
    let root = store.add_root_scenario("r", 1).unwrap();
    let child = store.add_child_scenario("c", 2, &root).unwrap();
    let grandchild = store.add_child_scenario("g", 3, &child).unwrap();
    assert_eq!(root.family, root.id);
    assert_eq!(child.family, root.id);
    assert_eq!(grandchild.family, root.id);
    assert_eq!(grandchild.parent, Some(child.id));
    assert_eq!(grandchild.generation, 2);
    assert_eq!(Lineage::root(7), Lineage { id: 7, family: 7, parent: None, generation: 0 });
    assert_eq!(
        Lineage::child(&root, 9),
        Lineage { id: 9, family: root.id, parent: Some(root.id), generation: 1 }
    );
}

#[test]
fn pick_parent_in_and_out_of_range() {
    let store = filled();
    assert_eq!(pick_parent(&store, 0).unwrap().lineage.id, 1);
    assert_eq!(pick_parent(&store, 5).unwrap().lineage.id, 5);
    assert!(pick_parent(&store, 6).is_none());
    let empty: MemoryStorage<&str> = MemoryStorage::new();
    assert!(pick_parent(&empty, 0).is_none());
}

#[test]
fn nan_score_is_stored_as_negative_infinity() {
    let mut store: MemoryStorage<&str> = MemoryStorage::new();
    let nan_bits = f64::NAN.to_bits();
    record_run(&mut store, "nan", nan_bits, None).unwrap();
    record_run(&mut store, "low", (-1.0e300f64).to_bits(), None).unwrap();
    let parent = Lineage { id: 40, family: 3, parent: None, generation: 0 };
    let child = record_run(&mut store, "child", 2.5f64.to_bits(), Some(parent)).unwrap();
    assert_eq!(child.family, 3);
    assert_eq!(child.generation, 1);
    assert_eq!(store.get_nth_scenario_by_score(0).unwrap().world, "child");
    assert_eq!(store.get_nth_scenario_by_score(1).unwrap().world, "low");
    let last = store.get_nth_scenario_by_score(2).unwrap();
    assert_eq!(last.world, "nan");
    let neg_inf_key = genetic_orbits::score::score_key(f64::NEG_INFINITY.to_bits());
    assert_eq!(last.score, neg_inf_key);
}
