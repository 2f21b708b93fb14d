use quebrix::cache::cache::{Cache, EvictionStrategy};
use quebrix::cache::clear_all::ClearAll;
use quebrix::cache::decr::Decr;
use quebrix::cache::delete::Delete;
use quebrix::cache::get::Get;
use quebrix::cache::get_all_clusters::GetAllClusters;
use quebrix::cache::get_cluster_keys::GetClusterKeys;
use quebrix::cache::incr::INCR;
use quebrix::cache::set::SetValue;
use quebrix::memory_handling::memory_handling::MemoryHandler;

fn engine() -> Cache {
    Cache::new(6060, MemoryHandler::new(1), EvictionStrategy::AllKeysLru, false, false)
}

fn text(s: &str) -> String {
    s.to_string()
}

fn live_bytes(cache: &Cache) -> u128 {
    let mut total: u128 = 0;
    for cluster in &cache.store {
        for slot in &cluster.slots {
            total += slot.entry.value.len() as u128;
        }
    }
    total
}

#[test]
fn writes_of_fresh_keys_and_removals_keep_the_accountant_at_the_live_bytes() {
    let mut cache = engine();
    let mut expected: u128 = 0;
    for i in 0..50usize {
        let cluster = format!("c{}", i % 3);
        let key = format!("k{}", i);
        let value = vec![7u8; i % 11];
        expected += value.len() as u128;
        assert!(cache.set(cluster, key, value, None, false));
        assert_eq!(cache.memory_handler.current_memory(), expected);
        assert_eq!(cache.memory_handler.current_memory(), live_bytes(&cache));
    }
    for i in (0..50usize).step_by(2) {
        let cluster = format!("c{}", i % 3);
        let key = format!("k{}", i);
        cache.delete(&cluster, &key, false);
        cache.delete(&cluster, &key, false);
        assert_eq!(cache.memory_handler.current_memory(), live_bytes(&cache));
    }
    cache.clear_all(false);
    assert_eq!(cache.memory_handler.current_memory(), 0);
    assert_eq!(live_bytes(&cache), 0);
}

#[test]
fn a_write_over_a_bound_key_accounts_for_the_new_value_and_gives_nothing_back() {
    let mut cache = engine();
    assert!(cache.set(text("c"), text("k"), vec![1, 2, 3], None, false));
    assert!(cache.set(text("c"), text("k"), vec![4, 5], None, false));
    assert_eq!(live_bytes(&cache), 2);
    assert_eq!(cache.memory_handler.current_memory(), 5);
    cache.delete("c", "k", false);
    assert_eq!(live_bytes(&cache), 0);
    assert_eq!(cache.memory_handler.current_memory(), 3);
}

#[test]
fn the_accountant_never_holds_less_than_the_live_bytes() {
    let mut cache = engine();
    for round in 0..5u8 {
        for i in 0..10usize {
            assert!(cache.set(text("c"), format!("k{}", i), vec![round; i + 1], None, false));
            assert!(cache.incr(text("n"), format!("k{}", i % 3), Some(2), false));
            assert!(cache.decr(text("n"), format!("k{}", i % 3), None, false));
            assert!(cache.memory_handler.current_memory() >= live_bytes(&cache));
        }
        cache.delete("c", "k3", false);
        assert!(cache.memory_handler.current_memory() >= live_bytes(&cache));
    }
}

#[test]
fn a_removal_that_gives_back_more_than_is_held_stops_at_zero() {
    let mut cache = engine();
    assert!(cache.set(text("c"), text("k"), vec![1, 2, 3], None, false));
    cache.memory_handler.delete_memory(2);
    assert_eq!(cache.memory_handler.current_memory(), 1);
    cache.delete("c", "k", false);
    assert_eq!(cache.memory_handler.current_memory(), 0);
    assert_eq!(cache.get("c", "k").value, None);
}

#[test]
fn every_counter_operation_accounts_for_four_bytes() {
    let mut cache = engine();
    assert!(cache.incr(text("c"), text("n"), None, false));
    assert_eq!(cache.memory_handler.current_memory(), 4);
    assert!(cache.incr(text("c"), text("n"), Some(2), false));
    assert_eq!(cache.memory_handler.current_memory(), 8);
    assert!(cache.decr(text("c"), text("n"), None, false));
    assert_eq!(cache.memory_handler.current_memory(), 12);
    assert!(!cache.decr(text("c"), text("missing"), None, false));
    assert_eq!(cache.memory_handler.current_memory(), 12);
    assert_eq!(live_bytes(&cache), 4);
}

#[test]
fn a_write_may_leave_the_engine_over_its_limit_and_the_next_makes_room() {
    let mut cache = engine();
    assert!(cache.set(text("c"), text("big"), vec![0u8; 1_048_577], None, false));
    assert!(cache.memory_handler.is_memory_limit_finished());
    assert!(cache.set(text("c"), text("small"), vec![1], None, false));
    assert_eq!(cache.get_keys_of_cluster("c"), Some(vec![text("small")]));
    assert_eq!(cache.memory_handler.current_memory(), 1);
    assert_eq!(cache.get_all_clusters(), vec![text("c")]);
}

#[test]
fn the_clock_of_the_engine_does_not_run_backwards() {
    let cache = engine();
    let first = cache.clock();
    let second = cache.clock();
    assert!(first <= second);
    assert!(second < 60_000);
}

#[test]
fn a_value_with_a_long_time_to_live_is_still_there_on_the_clock_of_the_engine() {
    let mut cache = engine();
    assert!(cache.set(text("c"), text("k"), vec![1], Some(3_600_000), false));
    assert_eq!(cache.get("c", "k").value, Some(vec![1]));
    assert!(cache.set(text("c"), text("gone"), vec![2], Some(0), false));
    assert_eq!(cache.get("c", "gone").value, None);
    assert_eq!(cache.get_keys_of_cluster("c"), Some(vec![text("k")]));
}

#[test]
fn the_clock_never_shows_less_than_it_has_shown() {
    let mut cache = engine();
    cache.seen = 5_000_000;
    assert_eq!(cache.clock(), 5_000_000);
    assert_eq!(cache.tick(), 5_000_000);
    assert!(cache.set(text("c"), text("k"), vec![1], Some(10), false));
    assert_eq!(cache.peek("c", "k").unwrap().absolute_expiry, Some(5_000_010));
    assert_eq!(cache.seen, 5_000_000);
    assert_eq!(cache.get("c", "k").value, Some(vec![1]));
    cache.seen = 5_000_010;
    assert_eq!(cache.get("c", "k").value, None);
}

#[test]
fn an_operation_at_a_given_moment_leaves_the_clock_alone() {
    let mut cache = engine();
    assert!(cache.set_at(text("c"), text("k"), vec![1], Some(10), false, 1_000_000, 0));
    assert_eq!(cache.get_at("c", "k", 1_000_009).value, Some(vec![1]));
    assert_eq!(cache.seen, 0);
    let shown = cache.tick();
    assert_eq!(cache.seen, shown);
    assert!(shown < 60_000);
}
