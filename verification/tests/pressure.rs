use quebrix::cache::cache::{Cache, EvictionStrategy};
use quebrix::cache::get::Get;
use quebrix::cache::get_all_clusters::GetAllClusters;
use quebrix::cache::get_cluster_keys::GetClusterKeys;
use quebrix::cache::incr::INCR;
use quebrix::cache::move_cluster::MoveClusterValues;
use quebrix::cache::move_del_cluster::MoveCluster;
use quebrix::cache::set::SetValue;
use quebrix::memory_handling::memory_handling::MemoryHandler;

fn tight(strategy: EvictionStrategy) -> Cache {
    Cache::new(6060, MemoryHandler::new(0), strategy, false, false)
}

fn roomy() -> Cache {
    Cache::new(6060, MemoryHandler::new(1), EvictionStrategy::AllKeysLru, false, false)
}

fn text(s: &str) -> String {
    s.to_string()
}

#[test]
fn a_write_is_refused_when_nothing_can_be_given_up() {
    let mut cache = tight(EvictionStrategy::VolatileLru);
    assert!(cache.set(text("c"), text("a"), vec![1], None, false));
    assert!(!cache.set(text("c"), text("b"), vec![2], None, false));
    assert_eq!(cache.get("c", "a").value, Some(vec![1]));
    assert_eq!(cache.get("c", "b").value, None);
    assert_eq!(cache.memory_handler.current_memory(), 1);
    assert!(!cache.incr(text("c"), text("n"), None, false));
    assert_eq!(cache.get_keys_of_cluster("c"), Some(vec![text("a")]));
}

#[test]
fn the_first_key_met_is_given_up_under_all_keys_lru() {
    let mut cache = tight(EvictionStrategy::AllKeysLru);
    assert!(cache.set(text("c"), text("a"), vec![1], None, false));
    assert!(cache.set(text("c"), text("b"), vec![2], None, false));
    assert_eq!(cache.get("c", "a").value, None);
    assert_eq!(cache.get("c", "b").value, Some(vec![2]));
    assert_eq!(cache.memory_handler.current_memory(), 1);
}

#[test]
fn one_eviction_may_not_be_enough() {
    let mut cache = tight(EvictionStrategy::AllKeysLru);
    assert!(cache.set(text("c"), text("a"), vec![1], None, false));
    cache.memory_handler.add_memory(10);
    assert!(!cache.set(text("c"), text("b"), vec![2], None, false));
    assert_eq!(cache.get("c", "a").value, None);
    assert_eq!(cache.get("c", "b").value, None);
    assert_eq!(cache.memory_handler.current_memory(), 10);
}

#[test]
fn only_unexpired_keys_with_a_time_to_live_are_given_up_under_the_volatile_strategies() {
    for strategy in [EvictionStrategy::VolatileLru, EvictionStrategy::VolatileTtl] {
        let mut cache = Cache::new(1, MemoryHandler::new(1), strategy, false, false);
        assert!(cache.set_at(text("c"), text("plain"), vec![1], None, false, 0, 0));
        assert!(cache.set_at(text("c"), text("expired"), vec![2], Some(5), false, 0, 0));
        assert!(cache.set_at(text("c"), text("later"), vec![3], Some(500), false, 0, 0));
        assert!(cache.set_at(text("d"), text("sooner"), vec![4], Some(50), false, 0, 0));
        cache.evict_at(10, 0);
        assert_eq!(
            cache.get_keys_of_cluster("c"),
            Some(vec![text("plain"), text("expired")])
        );
        assert_eq!(cache.get_keys_of_cluster("d"), Some(vec![text("sooner")]));
        assert_eq!(cache.memory_handler.current_memory(), 3);
        cache.evict_at(10, 0);
        assert_eq!(cache.get_keys_of_cluster("d"), Some(vec![]));
        cache.evict_at(10, 0);
        assert_eq!(
            cache.get_keys_of_cluster("c"),
            Some(vec![text("plain"), text("expired")])
        );
        assert_eq!(cache.memory_handler.current_memory(), 2);
    }
}

#[test]
fn the_random_strategy_gives_up_the_key_that_the_draw_points_at() {
    let mut cache = Cache::new(1, MemoryHandler::new(1), EvictionStrategy::AllKeysRandom, false, false);
    cache.evict_at(0, 7);
    assert!(cache.set_at(text("a"), text("k0"), vec![1], None, false, 0, 0));
    assert!(cache.set_at(text("a"), text("k1"), vec![1, 1], None, false, 0, 0));
    assert!(cache.set_at(text("b"), text("k2"), vec![1, 1, 1], None, false, 0, 0));
    assert!(cache.set_at(text("b"), text("k3"), vec![1, 1, 1, 1], None, false, 0, 0));
    cache.evict_at(0, 2);
    assert_eq!(cache.get_keys_of_cluster("b"), Some(vec![text("k3")]));
    assert_eq!(cache.memory_handler.current_memory(), 7);
    cache.evict_at(0, 4);
    assert_eq!(cache.get_keys_of_cluster("a"), Some(vec![text("k0")]));
    assert_eq!(cache.memory_handler.current_memory(), 5);
    cache.evict_at(0, 1);
    cache.evict_at(0, 0);
    assert_eq!(cache.get_keys_of_cluster("a"), Some(vec![]));
    assert_eq!(cache.get_keys_of_cluster("b"), Some(vec![]));
    assert_eq!(cache.memory_handler.current_memory(), 0);
}

#[test]
fn a_random_eviction_gives_up_exactly_one_key() {
    let mut cache = Cache::new(1, MemoryHandler::new(1), EvictionStrategy::AllKeysRandom, false, false);
    for i in 0..20 {
        assert!(cache.set(text("c"), format!("k{}", i), vec![1], None, false));
    }
    cache.evict_entries();
    assert_eq!(cache.get_keys_of_cluster("c").unwrap().len(), 19);
    assert_eq!(cache.memory_handler.current_memory(), 19);
    assert!(cache.draw() < 19);
}

#[test]
fn an_eviction_on_an_empty_store_changes_nothing() {
    for code in 0..4 {
        let mut cache = tight(EvictionStrategy::from_i32(code).unwrap());
        cache.evict_entries();
        assert_eq!(cache.get_all_clusters(), Vec::<String>::new());
        assert_eq!(cache.memory_handler.current_memory(), 0);
    }
}

#[test]
fn copying_a_cluster_leaves_the_source_and_fills_the_destination() {
    let mut cache = roomy();
    assert!(cache.set(text("src"), text("a"), vec![1], None, false));
    assert!(cache.set(text("src"), text("b"), vec![2, 2], None, false));
    assert!(cache.set(text("dst"), text("old"), vec![9], None, false));
    assert!(cache.move_cluster_value("src", "dst"));
    assert_eq!(cache.get_all_clusters(), vec![text("src"), text("dst")]);
    assert_eq!(
        cache.get_keys_of_cluster("dst"),
        Some(vec![text("old"), text("a"), text("b")])
    );
    assert_eq!(cache.get("dst", "a").value, Some(vec![1]));
    assert_eq!(cache.get("dst", "b").value, Some(vec![2, 2]));
    assert_eq!(cache.get("src", "a").value, Some(vec![1]));
    assert_eq!(cache.memory_handler.current_memory(), 7);
}

#[test]
fn moving_a_cluster_removes_the_source() {
    let mut cache = roomy();
    assert!(cache.set(text("src"), text("a"), vec![1], None, false));
    assert!(cache.set(text("src"), text("b"), vec![2, 2], None, false));
    assert!(cache.move_cluster("src", "dst"));
    assert_eq!(cache.get_all_clusters(), vec![text("dst")]);
    assert_eq!(cache.get("dst", "a").value, Some(vec![1]));
    assert_eq!(cache.get("dst", "b").value, Some(vec![2, 2]));
    assert_eq!(cache.get("src", "a").value, None);
    assert_eq!(cache.memory_handler.current_memory(), 3);
}

#[test]
fn moving_a_missing_cluster_fails_and_changes_nothing() {
    let mut cache = roomy();
    assert!(cache.set(text("other"), text("a"), vec![1], None, false));
    assert!(!cache.move_cluster("src", "dst"));
    assert!(!cache.move_cluster_value("src", "dst"));
    assert_eq!(cache.get_all_clusters(), vec![text("other")]);
}

#[test]
fn a_copied_value_has_no_time_to_live_and_is_text() {
    let mut cache = roomy();
    assert!(cache.incr_at(text("src"), text("n"), Some(7), false, 0, 0));
    assert!(cache.expire_key_at(&text("src"), &text("n"), &100, 0));
    assert!(cache.move_cluster_value_at("src", "dst", 1, 0));
    let copy = cache.peek("dst", "n").unwrap();
    assert_eq!(copy.value, vec![7, 0, 0, 0]);
    assert_eq!(copy.absolute_expiry, None);
    assert_eq!(copy.ttl, None);
    assert_eq!(copy.kind, quebrix::cache::cache::CacheType::Str);
}

#[test]
fn a_move_that_is_refused_is_applied_in_part_and_keeps_the_source() {
    let mut cache = roomy();
    assert!(cache.set(text("src"), text("a"), vec![1], None, false));
    assert!(cache.set(text("src"), text("b"), vec![2], None, false));
    cache.memory_handler.add_memory(1_048_576);
    assert_eq!(cache.memory_handler.current_memory(), 1_048_578);
    assert!(!cache.move_cluster("src", "dst"));
    assert_eq!(cache.get_all_clusters(), vec![text("src"), text("dst")]);
    assert_eq!(cache.get_keys_of_cluster("src"), Some(vec![]));
    assert_eq!(cache.get_keys_of_cluster("dst"), Some(vec![text("b")]));
    assert_eq!(cache.get("dst", "b").value, Some(vec![2]));
    assert_eq!(cache.memory_handler.current_memory(), 1_048_577);
}

#[test]
fn a_move_under_pressure_may_succeed_by_giving_up_what_it_has_copied_from() {
    let mut cache = roomy();
    assert!(cache.set(text("src"), text("a"), vec![1], None, false));
    assert!(cache.set(text("src"), text("b"), vec![2], None, false));
    cache.memory_handler.add_memory(1_048_575);
    assert!(cache.move_cluster("src", "dst"));
    assert_eq!(cache.get_all_clusters(), vec![text("dst")]);
    assert_eq!(cache.get_keys_of_cluster("dst"), Some(vec![text("a"), text("b")]));
}

#[test]
fn a_move_under_a_volatile_strategy_without_room_copies_nothing() {
    let mut cache = tight(EvictionStrategy::VolatileTtl);
    assert!(cache.set(text("src"), text("a"), vec![1], None, false));
    assert!(!cache.move_cluster("src", "dst"));
    assert_eq!(cache.get_all_clusters(), vec![text("src")]);
    assert_eq!(cache.get("src", "a").value, Some(vec![1]));
}

#[test]
fn no_draw_is_made_under_another_strategy_or_on_a_store_without_keys() {
    for code in 0..3 {
        let mut cache = Cache::new(1, MemoryHandler::new(1), EvictionStrategy::from_i32(code).unwrap(), false, false);
        for i in 0..5 {
            assert!(cache.set(text("c"), format!("k{}", i), vec![1], None, false));
        }
        for _ in 0..20 {
            assert_eq!(cache.draw(), 0);
        }
    }
    let mut random = Cache::new(1, MemoryHandler::new(1), EvictionStrategy::AllKeysRandom, false, false);
    assert_eq!(random.draw(), 0);
    assert!(random.set(text("c"), text("only"), vec![1], None, false));
    assert_eq!(random.draw(), 0);
    for i in 0..200 {
        assert!(random.set(text("d"), format!("k{}", i), vec![1], None, false));
    }
    let draws: Vec<usize> = (0..50).map(|_| random.draw()).collect();
    assert!(draws.iter().all(|pick| *pick < 201));
    assert!(draws.iter().any(|pick| *pick != 0));
}
