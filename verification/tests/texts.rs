use base64::Engine;
use quebrix::cache::cache::{Cache, CacheType, EvictionStrategy};
use quebrix::cache::get_cluster_keys::GetClusterKeys;
use quebrix::cache::get_range::GetRange;
use quebrix::cache::incr::INCR;
use quebrix::cache::mget::MGet;
use quebrix::cache::set::SetValue;
use quebrix::cache::strlen::Strlen;
use quebrix::cache::text::{decode_text, substring, text_from_utf8};
use quebrix::memory_handling::memory_handling::MemoryHandler;

fn engine() -> Cache {
    Cache::new(6060, MemoryHandler::new(1), EvictionStrategy::AllKeysLru, false, false)
}

fn text(s: &str) -> String {
    s.to_string()
}

fn coded(s: &str) -> Vec<u8> {
    base64::engine::general_purpose::STANDARD.encode(s).into_bytes()
}

#[test]
fn a_value_decodes_to_its_text() {
    assert_eq!(decode_text(&b"aGVsbG8=".to_vec()), Some((5, text("hello"))));
    assert_eq!(decode_text(&coded("héllo wörld")), Some((13, text("héllo wörld"))));
    assert_eq!(decode_text(&vec![]), Some((0, text(""))));
}

#[test]
fn a_value_that_is_no_base64_or_no_utf8_decodes_to_nothing() {
    assert_eq!(decode_text(&b"aGVsbG8".to_vec()), None);
    assert_eq!(decode_text(&b"not base64!".to_vec()), None);
    assert_eq!(decode_text(&vec![1, 2, 3]), None);
    let not_utf8 = base64::engine::general_purpose::STANDARD.encode([0xff, 0xfe]).into_bytes();
    assert_eq!(decode_text(&not_utf8), None);
    assert_eq!(decode_text(&b"hello".to_vec()), None);
}

#[test]
fn utf8_bytes_are_read_as_text() {
    assert_eq!(text_from_utf8(b"plain".to_vec()), Some(text("plain")));
    assert_eq!(text_from_utf8("ünïcödé".as_bytes().to_vec()), Some(text("ünïcödé")));
    assert_eq!(text_from_utf8(vec![]), Some(text("")));
    assert_eq!(text_from_utf8(vec![0xc3]), None);
    assert_eq!(text_from_utf8(vec![0xff]), None);
}

#[test]
fn a_range_includes_both_of_its_ends() {
    assert_eq!(substring("hello world", 0, 4), Some(text("hello")));
    assert_eq!(substring("hello world", 6, 10), Some(text("world")));
    assert_eq!(substring("hello world", 4, 4), Some(text("o")));
    assert_eq!(substring("hello world", 0, 0), Some(text("h")));
}

#[test]
fn the_end_of_a_range_is_clamped_to_the_text() {
    assert_eq!(substring("hello", 2, 100), Some(text("llo")));
    assert_eq!(substring("hello", 0, u32::MAX), Some(text("hello")));
    assert_eq!(substring("hello", 4, 5), Some(text("o")));
}

#[test]
fn a_range_that_starts_past_the_text_or_past_its_end_is_nothing() {
    assert_eq!(substring("hello", 5, 9), None);
    assert_eq!(substring("hello", 100, 200), None);
    assert_eq!(substring("hello", 3, 2), None);
    assert_eq!(substring("", 0, 0), None);
}

#[test]
fn a_range_counts_characters_not_bytes() {
    assert_eq!(substring("héllo wörld", 1, 1), Some(text("é")));
    assert_eq!(substring("héllo wörld", 6, 8), Some(text("wör")));
    assert_eq!(substring("日本語のテキスト", 2, 4), Some(text("語のテ")));
}

#[test]
fn get_range_reads_a_part_of_a_text_entry() {
    let mut cache = engine();
    assert!(cache.set(text("c"), text("k"), coded("hello world"), None, false));
    let part = cache.get_range("c", "k", 0, 4);
    assert_eq!(part.value, Some(text("hello")));
    assert_eq!(part.value_type, CacheType::Str);
    assert_eq!(cache.get_range("c", "k", 6, 100).value, Some(text("world")));
    assert_eq!(cache.get_range("c", "k", 11, 12).value, None);
    assert_eq!(cache.get_range("c", "k", 5, 1).value, None);
}

#[test]
fn get_range_is_empty_for_counters_missing_keys_and_what_is_no_text() {
    let mut cache = engine();
    assert!(cache.incr(text("c"), text("n"), Some(7), false));
    assert!(cache.set(text("c"), text("raw"), vec![1, 2, 3], None, false));
    let of_counter = cache.get_range("c", "n", 0, 1);
    assert_eq!(of_counter.value, None);
    assert_eq!(of_counter.value_type, CacheType::Str);
    assert_eq!(cache.get_range("c", "missing", 0, 1).value, None);
    assert_eq!(cache.get_range("nowhere", "k", 0, 1).value, None);
    assert_eq!(cache.get_range("c", "raw", 0, 1).value, None);
}

#[test]
fn get_range_sweeps_like_a_read() {
    let mut cache = engine();
    assert!(cache.set_at(text("c"), text("k"), coded("hello"), Some(10), false, 0, 0));
    assert_eq!(cache.get_range_at("c", "k", 0, 1, 9).value, Some(text("he")));
    assert_eq!(cache.get_range_at("c", "k", 0, 1, 10).value, None);
    assert_eq!(cache.get_keys_of_cluster("c"), Some(vec![]));
}

#[test]
fn strlen_counts_the_bytes_of_the_text() {
    let mut cache = engine();
    assert!(cache.set(text("c"), text("k"), coded("hello"), None, false));
    assert!(cache.set(text("c"), text("u"), coded("héllo"), None, false));
    assert!(cache.set(text("c"), text("empty"), coded(""), None, false));
    assert_eq!(cache.strlen("c", "k"), 5);
    assert_eq!(cache.strlen("c", "u"), 6);
    assert_eq!(cache.strlen("c", "empty"), 0);
}

#[test]
fn strlen_is_zero_for_counters_missing_keys_and_what_is_no_text() {
    let mut cache = engine();
    assert!(cache.incr(text("c"), text("n"), Some(7), false));
    assert!(cache.set(text("c"), text("raw"), vec![1, 2, 3], None, false));
    assert_eq!(cache.strlen("c", "n"), 0);
    assert_eq!(cache.strlen("c", "raw"), 0);
    assert_eq!(cache.strlen("c", "missing"), 0);
    assert_eq!(cache.strlen("nowhere", "k"), 0);
    assert!(cache.set_at(text("c"), text("timed"), coded("abc"), Some(1), false, 0, 0));
    assert_eq!(cache.strlen_at("c", "timed", 0), 3);
    assert_eq!(cache.strlen_at("c", "timed", 1), 0);
}

fn answers(reply: &(String, Vec<quebrix::cache::mget::MGetKeyValuePair>)) -> (String, Vec<(String, String)>) {
    (
        reply.0.clone(),
        reply.1.iter().map(|pair| (pair.key.clone(), pair.value.clone())).collect(),
    )
}

#[test]
fn mget_answers_each_cluster_with_the_keys_it_finds() {
    let mut cache = engine();
    assert!(cache.set(text("a"), text("x"), coded("one"), None, false));
    assert!(cache.set(text("a"), text("y"), coded("two"), None, false));
    assert!(cache.set(text("b"), text("z"), coded("three"), None, false));
    let replies = cache.mget(vec![
        (text("a"), vec![text("y"), text("missing"), text("x")]),
        (text("nowhere"), vec![text("x")]),
        (text("b"), vec![]),
        (text("b"), vec![text("z"), text("z")]),
    ]);
    assert_eq!(replies.len(), 4);
    assert_eq!(
        answers(&replies[0]),
        (text("a"), vec![(text("y"), text("two")), (text("x"), text("one"))])
    );
    assert_eq!(answers(&replies[1]), (text("nowhere"), vec![]));
    assert_eq!(answers(&replies[2]), (text("b"), vec![]));
    assert_eq!(
        answers(&replies[3]),
        (text("b"), vec![(text("z"), text("three")), (text("z"), text("three"))])
    );
}

#[test]
fn mget_passes_over_expired_keys_and_what_is_no_text_and_sweeps_nothing() {
    let mut cache = engine();
    assert!(cache.set_at(text("a"), text("live"), coded("one"), Some(100), false, 0, 0));
    assert!(cache.set_at(text("a"), text("dead"), coded("two"), Some(10), false, 0, 0));
    assert!(cache.set_at(text("a"), text("raw"), vec![1, 2, 3], None, false, 0, 0));
    assert!(cache.incr_at(text("a"), text("n"), Some(1), false, 0, 0));
    let wanted = vec![(text("a"), vec![text("live"), text("dead"), text("raw"), text("n")])];
    let early = cache.mget_at(wanted.clone(), 9);
    assert_eq!(
        answers(&early[0]),
        (text("a"), vec![(text("live"), text("one")), (text("dead"), text("two"))])
    );
    let late = cache.mget_at(wanted, 10);
    assert_eq!(answers(&late[0]), (text("a"), vec![(text("live"), text("one"))]));
    assert_eq!(
        cache.get_keys_of_cluster("a"),
        Some(vec![text("live"), text("dead"), text("raw"), text("n")])
    );
}
