use quebrix::cache::cache::{Cache, CacheType, EvictionStrategy};
use quebrix::cache::clear_all::ClearAll;
use quebrix::cache::clear_cluster::ClearCluster;
use quebrix::cache::clear_expired::ClearExpired;
use quebrix::cache::decr::Decr;
use quebrix::cache::delete::Delete;
use quebrix::cache::exist_key::KeyExists;
use quebrix::cache::expire_key::ExpireKey;
use quebrix::cache::get::Get;
use quebrix::cache::get_all_clusters::GetAllClusters;
use quebrix::cache::get_cluster_keys::GetClusterKeys;
use quebrix::cache::get_del::GetDel;
use quebrix::cache::incr::INCR;
use quebrix::cache::keys_count::KeysCount;
use quebrix::cache::set::SetValue;
use quebrix::cache::set_cluster::SetCluster;
use quebrix::cache::type_of_key::TypeOfKey;
use quebrix::convert::{i32_to_vec, vec_to_i32};
use quebrix::memory_handling::memory_handling::MemoryHandler;

fn engine(limit_mb: usize, strategy: EvictionStrategy) -> Cache {
    Cache::new(6060, MemoryHandler::new(limit_mb), strategy, false, false)
}

fn text(s: &str) -> String {
    s.to_string()
}

#[test]
fn set_then_get_returns_the_value_as_text() {
    let mut cache = engine(1, EvictionStrategy::AllKeysLru);
    assert!(cache.set(text("users"), text("a"), vec![1, 2, 3], None, false));
    let found = cache.get("users", "a");
    assert_eq!(found.value, Some(vec![1, 2, 3]));
    assert_eq!(found.value_type, Some(CacheType::Str));
}

#[test]
fn incr_twice_stores_the_sum() {
    let mut cache = engine(1, EvictionStrategy::AllKeysLru);
    assert!(cache.incr(text("c"), text("n"), None, false));
    assert!(cache.incr(text("c"), text("n"), Some(4), false));
    let found = cache.get("c", "n");
    assert_eq!(found.value, Some(vec![5, 0, 0, 0]));
    assert_eq!(found.value_type, Some(CacheType::Int));
    assert_eq!(vec_to_i32(found.value.unwrap()), Some(5));
}

#[test]
fn expire_key_with_no_time_left_hides_the_key_at_once() {
    let mut cache = engine(1, EvictionStrategy::AllKeysLru);
    assert!(cache.incr(text("c"), text("n"), None, false));
    assert!(cache.expire_key(&text("c"), &text("n"), &0));
    let found = cache.get("c", "n");
    assert_eq!(found.value, None);
    assert_eq!(found.value_type, None);
}

#[test]
fn get_of_a_missing_key_or_cluster_is_absent() {
    let mut cache = engine(1, EvictionStrategy::AllKeysLru);
    assert_eq!(cache.get("nowhere", "k").value, None);
    assert!(cache.set(text("c"), text("k"), vec![9], None, false));
    let missing = cache.get("c", "other");
    assert_eq!(missing.value, None);
    assert_eq!(missing.value_type, None);
}

#[test]
fn a_value_with_a_time_to_live_is_gone_once_the_time_has_passed() {
    let mut cache = engine(1, EvictionStrategy::AllKeysLru);
    assert!(cache.set_at(text("c"), text("k"), vec![7, 7], Some(100), false, 1000, 0));
    assert!(cache.set_at(text("c"), text("stay"), vec![1], None, false, 1000, 0));
    assert_eq!(cache.get_at("c", "k", 1099).value, Some(vec![7, 7]));
    assert_eq!(cache.get_keys_of_cluster("c"), Some(vec![text("k"), text("stay")]));
    assert_eq!(cache.get_at("c", "k", 1100).value, None);
    assert_eq!(cache.get_keys_of_cluster("c"), Some(vec![text("stay")]));
    assert_eq!(cache.get_at("c", "stay", 1_000_000).value, Some(vec![1]));
}

#[test]
fn the_expiry_is_fixed_when_the_value_is_written() {
    let mut cache = engine(1, EvictionStrategy::AllKeysLru);
    assert!(cache.set_at(text("c"), text("k"), vec![1], Some(50), false, 10, 0));
    let entry = cache.peek("c", "k").unwrap();
    assert_eq!(entry.absolute_expiry, Some(60));
    assert_eq!(entry.ttl, Some(50));
    assert!(cache.set_at(text("c"), text("plain"), vec![1], None, false, 10, 0));
    let plain = cache.peek("c", "plain").unwrap();
    assert_eq!(plain.absolute_expiry, None);
    assert_eq!(plain.ttl, None);
}

#[test]
fn a_sweep_gives_the_bytes_of_expired_entries_back() {
    let mut cache = engine(1, EvictionStrategy::AllKeysLru);
    assert!(cache.set_at(text("c"), text("a"), vec![1, 2, 3], Some(5), false, 0, 0));
    assert!(cache.set_at(text("c"), text("b"), vec![4, 5], None, false, 0, 0));
    assert_eq!(cache.memory_handler.current_memory(), 5);
    let _ = cache.get_at("c", "b", 5);
    assert_eq!(cache.memory_handler.current_memory(), 2);
}

#[test]
fn set_overwrites_in_place_and_keeps_the_order_of_keys() {
    let mut cache = engine(1, EvictionStrategy::AllKeysLru);
    assert!(cache.set(text("c"), text("a"), vec![1], None, false));
    assert!(cache.set(text("c"), text("b"), vec![2], None, false));
    assert!(cache.set(text("c"), text("a"), vec![3, 3], None, false));
    assert_eq!(cache.get("c", "a").value, Some(vec![3, 3]));
    assert_eq!(cache.get_keys_of_cluster("c"), Some(vec![text("a"), text("b")]));
    assert_eq!(cache.keys_count("c"), 2);
}

#[test]
fn incr_on_a_missing_key_makes_a_counter_that_holds_one() {
    let mut cache = engine(1, EvictionStrategy::AllKeysLru);
    assert!(cache.incr(text("c"), text("n"), None, false));
    let found = cache.get("c", "n");
    assert_eq!(found.value, Some(i32_to_vec(1)));
    assert_eq!(found.value_type, Some(CacheType::Int));
}

#[test]
fn incr_by_five_on_three_gives_eight() {
    let mut cache = engine(1, EvictionStrategy::AllKeysLru);
    assert!(cache.incr(text("c"), text("n"), Some(3), false));
    assert!(cache.incr(text("c"), text("n"), Some(5), false));
    assert_eq!(cache.get("c", "n").value, Some(i32_to_vec(8)));
}

#[test]
fn incr_that_would_leave_the_range_is_not_done() {
    let mut cache = engine(1, EvictionStrategy::AllKeysLru);
    assert!(cache.incr(text("c"), text("n"), Some(i32::MAX), false));
    assert!(!cache.incr(text("c"), text("n"), Some(1), false));
    assert_eq!(cache.get("c", "n").value, Some(i32_to_vec(i32::MAX)));
}

#[test]
fn incr_on_a_value_of_fewer_than_four_bytes_is_not_done() {
    let mut cache = engine(1, EvictionStrategy::AllKeysLru);
    assert!(cache.set(text("c"), text("short"), vec![1, 2], None, false));
    assert!(!cache.incr(text("c"), text("short"), Some(1), false));
    assert_eq!(cache.get("c", "short").value, Some(vec![1, 2]));
}

#[test]
fn incr_on_a_text_value_counts_on_its_first_four_bytes_and_keeps_the_kind() {
    let mut cache = engine(1, EvictionStrategy::AllKeysLru);
    assert!(cache.set(text("c"), text("t"), vec![2, 0, 0, 0, 9, 9], None, false));
    assert!(cache.incr(text("c"), text("t"), Some(3), false));
    let found = cache.get("c", "t");
    assert_eq!(found.value, Some(vec![5, 0, 0, 0]));
    assert_eq!(found.value_type, Some(CacheType::Str));
}

#[test]
fn decr_below_zero_clamps_to_zero() {
    let mut cache = engine(1, EvictionStrategy::AllKeysLru);
    assert!(cache.incr(text("c"), text("n"), Some(3), false));
    assert!(cache.decr(text("c"), text("n"), Some(5), false));
    assert_eq!(cache.get("c", "n").value, Some(i32_to_vec(0)));
    assert!(cache.decr(text("c"), text("n"), None, false));
    assert_eq!(cache.get("c", "n").value, Some(i32_to_vec(0)));
}

#[test]
fn decr_lowers_by_the_step() {
    let mut cache = engine(1, EvictionStrategy::AllKeysLru);
    assert!(cache.incr(text("c"), text("n"), Some(10), false));
    assert!(cache.decr(text("c"), text("n"), Some(4), false));
    assert_eq!(cache.get("c", "n").value, Some(i32_to_vec(6)));
    assert!(cache.decr(text("c"), text("n"), None, false));
    assert_eq!(cache.get("c", "n").value, Some(i32_to_vec(5)));
}

#[test]
fn decr_on_a_missing_key_is_not_done() {
    let mut cache = engine(1, EvictionStrategy::AllKeysLru);
    assert!(!cache.decr(text("c"), text("n"), Some(1), false));
    assert_eq!(cache.get("c", "n").value, None);
    assert_eq!(cache.keys_count("c"), -1);
}

#[test]
fn decr_on_an_expired_counter_is_not_done() {
    let mut cache = engine(1, EvictionStrategy::AllKeysLru);
    assert!(cache.incr_at(text("c"), text("n"), Some(3), false, 0, 0));
    assert!(cache.expire_key_at(&text("c"), &text("n"), &10, 0));
    assert!(cache.decr_at(text("c"), text("n"), Some(1), false, 9, 0));
    assert!(!cache.decr_at(text("c"), text("n"), Some(1), false, 10, 0));
    assert_eq!(cache.keys_count("c"), 0);
}

#[test]
fn delete_removes_the_key_and_nothing_else() {
    let mut cache = engine(1, EvictionStrategy::AllKeysLru);
    assert!(cache.set(text("c"), text("a"), vec![1], None, false));
    assert!(cache.set(text("c"), text("b"), vec![2], None, false));
    cache.delete("c", "a", false);
    assert_eq!(cache.get("c", "a").value, None);
    assert_eq!(cache.get("c", "b").value, Some(vec![2]));
    cache.delete("c", "missing", false);
    cache.delete("nowhere", "a", false);
    assert_eq!(cache.get_keys_of_cluster("c"), Some(vec![text("b")]));
}

#[test]
fn get_del_hands_the_value_back_and_removes_it() {
    let mut cache = engine(1, EvictionStrategy::AllKeysLru);
    assert!(cache.set(text("c"), text("a"), vec![1, 2], None, false));
    let first = cache.get_del("c", "a");
    assert_eq!(first.value, Some(vec![1, 2]));
    assert_eq!(first.value_type, Some(CacheType::Str));
    let second = cache.get_del("c", "a");
    assert_eq!(second.value, None);
    assert_eq!(cache.memory_handler.current_memory(), 0);
}

#[test]
fn key_exists_and_kind_are_read_without_a_sweep() {
    let mut cache = engine(1, EvictionStrategy::AllKeysLru);
    assert!(cache.set_at(text("c"), text("s"), vec![1], Some(1), false, 0, 0));
    assert!(cache.incr_at(text("c"), text("n"), None, false, 0, 0));
    assert!(cache.key_exists(&text("c"), &text("s")));
    assert!(!cache.key_exists(&text("c"), &text("missing")));
    assert!(!cache.key_exists(&text("nowhere"), &text("s")));
    assert_eq!(cache.get_type(&text("c"), &text("s")), Some(CacheType::Str));
    assert_eq!(cache.get_type(&text("c"), &text("n")), Some(CacheType::Int));
    assert_eq!(cache.get_type(&text("c"), &text("missing")), None);
    assert_eq!(cache.keys_count("c"), 2);
    let _ = cache.get_at("c", "n", 5);
    assert!(!cache.key_exists(&text("c"), &text("s")));
    assert_eq!(cache.keys_count("c"), 1);
}

#[test]
fn keys_count_is_minus_one_for_a_missing_cluster() {
    let mut cache = engine(1, EvictionStrategy::AllKeysLru);
    assert_eq!(cache.keys_count("c"), -1);
    cache.set_cluster(text("c"));
    assert_eq!(cache.keys_count("c"), 0);
    assert_eq!(cache.get_keys_of_cluster("c"), Some(vec![]));
    assert_eq!(cache.get_keys_of_cluster("other"), None);
}

#[test]
fn clusters_are_listed_in_the_order_of_their_first_write() {
    let mut cache = engine(1, EvictionStrategy::AllKeysLru);
    assert_eq!(cache.get_all_clusters(), Vec::<String>::new());
    cache.set_cluster(text("b"));
    assert!(cache.set(text("a"), text("k"), vec![1], None, false));
    cache.set_cluster(text("b"));
    assert_eq!(cache.get_all_clusters(), vec![text("b"), text("a")]);
}

#[test]
fn expire_key_makes_the_cluster_and_tells_whether_the_key_was_bound() {
    let mut cache = engine(1, EvictionStrategy::AllKeysLru);
    assert!(!cache.expire_key(&text("c"), &text("k"), &1000));
    assert_eq!(cache.get_all_clusters(), vec![text("c")]);
    assert_eq!(cache.keys_count("c"), 0);
    assert!(cache.set_at(text("c"), text("k"), vec![1], None, false, 0, 0));
    assert!(cache.expire_key_at(&text("c"), &text("k"), &30, 100));
    let entry = cache.peek("c", "k").unwrap();
    assert_eq!(entry.absolute_expiry, Some(130));
    assert_eq!(entry.ttl, Some(30));
    assert_eq!(entry.value, vec![1]);
    assert_eq!(cache.get_at("c", "k", 129).value, Some(vec![1]));
    assert_eq!(cache.get_at("c", "k", 130).value, None);
}

#[test]
fn clear_cluster_removes_the_cluster_and_gives_its_bytes_back() {
    let mut cache = engine(1, EvictionStrategy::AllKeysLru);
    assert!(cache.set(text("a"), text("k"), vec![1, 2, 3], None, false));
    assert!(cache.set(text("b"), text("k"), vec![4, 5], None, false));
    assert_eq!(cache.memory_handler.current_memory(), 5);
    cache.clear_cluster("a", false);
    assert_eq!(cache.get_all_clusters(), vec![text("b")]);
    assert_eq!(cache.memory_handler.current_memory(), 2);
    cache.clear_cluster("missing", false);
    assert_eq!(cache.memory_handler.current_memory(), 2);
}

#[test]
fn clear_all_empties_the_store_and_the_accountant() {
    let mut cache = engine(1, EvictionStrategy::AllKeysLru);
    assert!(cache.set(text("a"), text("k"), vec![1, 2, 3], None, false));
    assert!(cache.set(text("b"), text("k"), vec![4, 5], None, false));
    cache.clear_all(false);
    assert_eq!(cache.get_all_clusters(), Vec::<String>::new());
    assert_eq!(cache.memory_handler.current_memory(), 0);
}

#[test]
fn clear_expired_sweeps_every_cluster() {
    let mut cache = engine(1, EvictionStrategy::AllKeysLru);
    assert!(cache.set_at(text("a"), text("gone"), vec![1, 2, 3], Some(10), false, 0, 0));
    assert!(cache.set_at(text("a"), text("kept"), vec![1], Some(11), false, 0, 0));
    assert!(cache.set_at(text("b"), text("gone"), vec![4, 5], Some(1), false, 0, 0));
    assert!(cache.set_at(text("b"), text("plain"), vec![6], None, false, 0, 0));
    cache.clear_expired_at(10);
    assert_eq!(cache.get_keys_of_cluster("a"), Some(vec![text("kept")]));
    assert_eq!(cache.get_keys_of_cluster("b"), Some(vec![text("plain")]));
    assert_eq!(cache.memory_handler.current_memory(), 2);
    cache.clear_expired();
    assert_eq!(cache.get_all_clusters(), vec![text("a"), text("b")]);
}

#[test]
fn the_port_can_be_read_and_set() {
    let mut cache = engine(1, EvictionStrategy::AllKeysLru);
    assert_eq!(cache.get_default_port(), 6060);
    cache.configure_default_port(7070);
    assert_eq!(cache.get_default_port(), 7070);
}

#[test]
fn kinds_have_their_codes_and_names() {
    assert_eq!(CacheType::Int.as_i32(), &1);
    assert_eq!(CacheType::Str.as_i32(), &2);
    assert_eq!(CacheType::Int.as_str(), "integer");
    assert_eq!(CacheType::Str.as_str(), "string");
}

#[test]
fn strategies_have_their_codes() {
    assert_eq!(EvictionStrategy::from_i32(0), Some(EvictionStrategy::VolatileLru));
    assert_eq!(EvictionStrategy::from_i32(1), Some(EvictionStrategy::VolatileTtl));
    assert_eq!(EvictionStrategy::from_i32(2), Some(EvictionStrategy::AllKeysLru));
    assert_eq!(EvictionStrategy::from_i32(3), Some(EvictionStrategy::AllKeysRandom));
    assert_eq!(EvictionStrategy::from_i32(4), None);
    assert_eq!(EvictionStrategy::from_i32(-1), None);
}
