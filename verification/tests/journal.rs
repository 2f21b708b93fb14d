use quebrix::cache::cache::{Cache, CacheType, EvictionStrategy};
use quebrix::cache::clear_all::ClearAll;
use quebrix::cache::clear_cluster::ClearCluster;
use quebrix::cache::decr::Decr;
use quebrix::cache::delete::Delete;
use quebrix::cache::expire_key::ExpireKey;
use quebrix::cache::get::Get;
use quebrix::cache::get_all_clusters::GetAllClusters;
use quebrix::cache::get_cluster_keys::GetClusterKeys;
use quebrix::cache::get_del::GetDel;
use quebrix::cache::incr::INCR;
use quebrix::cache::move_del_cluster::MoveCluster;
use quebrix::cache::set::SetValue;
use quebrix::memory_handling::memory_handling::MemoryHandler;
use quebrix::persistent::command::Command;
use quebrix::persistent::file::{persistent_file_name, today, Date};
use quebrix::persistent::parse::parse_line;
use quebrix::jobs::retention_policy_job::{retention_target, run_retention_policy};

fn persistent_engine() -> Cache {
    Cache::new(6060, MemoryHandler::new(1), EvictionStrategy::AllKeysLru, false, true)
}

fn text(s: &str) -> String {
    s.to_string()
}

#[test]
fn a_write_without_a_time_to_live_is_logged() {
    let mut cache = persistent_engine();
    assert!(cache.set(text("users"), text("a"), vec![1, 2, 3], None, false));
    assert_eq!(cache.take_pending(), vec![text("SET users a [1, 2, 3]")]);
    assert_eq!(cache.take_pending(), Vec::<String>::new());
}

#[test]
fn a_write_with_a_time_to_live_is_not_logged() {
    let mut cache = persistent_engine();
    assert!(cache.set(text("users"), text("a"), vec![1, 2, 3], Some(1000), false));
    assert_eq!(cache.take_pending(), Vec::<String>::new());
}

#[test]
fn a_suppressed_operation_is_not_logged() {
    let mut cache = persistent_engine();
    assert!(cache.set(text("c"), text("a"), vec![1], None, true));
    assert!(cache.incr(text("c"), text("n"), None, true));
    assert!(cache.decr(text("c"), text("n"), None, true));
    cache.delete("c", "a", true);
    cache.clear_cluster("c", true);
    cache.clear_all(true);
    assert_eq!(cache.take_pending(), Vec::<String>::new());
}

#[test]
fn an_engine_that_does_not_persist_logs_nothing() {
    let mut cache = Cache::new(1, MemoryHandler::new(1), EvictionStrategy::AllKeysLru, true, false);
    assert!(cache.set(text("c"), text("a"), vec![1], None, false));
    assert!(cache.incr(text("c"), text("n"), None, false));
    cache.delete("c", "a", false);
    cache.clear_all(false);
    assert_eq!(cache.take_pending(), Vec::<String>::new());
}

#[test]
fn logging_does_not_depend_on_the_logger_being_enabled() {
    for enable_log in [false, true] {
        let mut cache =
            Cache::new(1, MemoryHandler::new(1), EvictionStrategy::AllKeysLru, enable_log, true);
        assert!(cache.set(text("c"), text("a"), vec![1], None, false));
        cache.delete("c", "a", false);
        assert!(cache.set(text("c"), text("a"), vec![1], None, false));
        cache.clear_cluster("c", false);
        assert_eq!(
            cache.take_pending(),
            vec![text("SET c a [1]"), text("DEL c a"), text("SET c a [1]"), text("CLEAR_CLUSTER c")]
        );
    }
}

#[test]
fn counters_are_logged_with_the_number_they_came_to_hold() {
    let mut cache = persistent_engine();
    assert!(cache.incr(text("c"), text("n"), None, false));
    assert!(cache.incr(text("c"), text("n"), Some(4), false));
    assert!(cache.decr(text("c"), text("n"), Some(2), false));
    assert!(cache.decr(text("c"), text("n"), Some(300), false));
    assert_eq!(
        cache.take_pending(),
        vec![
            text("INCR c n [1, 0, 0, 0]"),
            text("INCR c n [5, 0, 0, 0]"),
            text("DECR c n [3, 0, 0, 0]"),
            text("DECR c n [0, 0, 0, 0]"),
        ]
    );
}

#[test]
fn removals_are_logged_only_when_something_was_removed() {
    let mut cache = persistent_engine();
    cache.delete("c", "missing", false);
    cache.clear_cluster("missing", false);
    assert_eq!(cache.take_pending(), Vec::<String>::new());
    assert!(cache.set(text("c"), text("k"), vec![], None, false));
    cache.delete("c", "k", false);
    cache.clear_cluster("c", false);
    cache.clear_all(false);
    assert_eq!(
        cache.take_pending(),
        vec![text("SET c k []"), text("DEL c k"), text("CLEAR_CLUSTER c"), text("CLEAR_ALL")]
    );
}

#[test]
fn get_del_logs_the_removal() {
    let mut cache = persistent_engine();
    assert!(cache.set(text("c"), text("k"), vec![7], None, true));
    let _ = cache.get_del("c", "k");
    let _ = cache.get_del("c", "k");
    assert_eq!(cache.take_pending(), vec![text("DEL c k")]);
}

#[test]
fn a_refused_write_is_not_logged() {
    let mut cache = Cache::new(1, MemoryHandler::new(0), EvictionStrategy::VolatileLru, false, true);
    assert!(cache.set(text("c"), text("a"), vec![1], None, false));
    assert!(!cache.set(text("c"), text("b"), vec![2], None, false));
    assert!(!cache.incr(text("c"), text("n"), None, false));
    assert_eq!(cache.take_pending(), vec![text("SET c a [1]")]);
}

#[test]
fn a_move_is_not_logged() {
    let mut cache = persistent_engine();
    assert!(cache.set(text("src"), text("a"), vec![1], None, true));
    assert!(cache.move_cluster("src", "dst"));
    assert_eq!(cache.take_pending(), Vec::<String>::new());
}

#[test]
fn commands_have_their_lines() {
    let set = Command::SetValue { cluster: text("c"), key: text("k"), value: vec![0, 9, 10, 99, 100, 255] };
    assert_eq!(set.line(), "SET c k [0, 9, 10, 99, 100, 255]");
    let incr = Command::Incr { cluster: text("c"), key: text("k"), result: -2 };
    assert_eq!(incr.line(), "INCR c k [254, 255, 255, 255]");
    let decr = Command::Decr { cluster: text("c"), key: text("k"), result: 256 };
    assert_eq!(decr.line(), "DECR c k [0, 1, 0, 0]");
    assert_eq!(Command::Del { cluster: text("c"), key: text("k") }.line(), "DEL c k");
    assert_eq!(Command::ClearCluster { cluster: text("c") }.line(), "CLEAR_CLUSTER c");
    assert_eq!(Command::ClearAll.line(), "CLEAR_ALL");
}

#[test]
fn the_line_of_a_value_is_its_debug_form() {
    for value in [vec![], vec![0u8], vec![1, 2, 3], vec![255, 0, 17, 100, 9]] {
        let line = Command::SetValue { cluster: text("c"), key: text("k"), value: value.clone() }.line();
        assert_eq!(line, format!("SET c k {:?}", value));
    }
}

fn parsed_set(line: &str) -> Option<(String, String, Vec<u8>)> {
    match parse_line(line) {
        Some(Command::SetValue { cluster, key, value }) => Some((cluster, key, value)),
        _ => None,
    }
}

#[test]
fn a_written_line_is_read_back() {
    assert_eq!(parsed_set("SET users a [1, 2, 3]"), Some((text("users"), text("a"), vec![1, 2, 3])));
    assert_eq!(parsed_set("SET c k []"), Some((text("c"), text("k"), vec![])));
    assert_eq!(parsed_set("SET c k [0]"), Some((text("c"), text("k"), vec![0])));
    assert_eq!(parsed_set("SET c k [255, 0]"), Some((text("c"), text("k"), vec![255, 0])));
    assert!(matches!(
        parse_line("INCR c n [5, 0, 0, 0]"),
        Some(Command::Incr { cluster, key, result: 5 }) if cluster == "c" && key == "n"
    ));
    assert!(matches!(
        parse_line("DECR c n [254, 255, 255, 255]"),
        Some(Command::Decr { cluster, key, result: -2 }) if cluster == "c" && key == "n"
    ));
    assert!(matches!(
        parse_line("DEL c k"),
        Some(Command::Del { cluster, key }) if cluster == "c" && key == "k"
    ));
    assert!(matches!(
        parse_line("CLEAR_CLUSTER users"),
        Some(Command::ClearCluster { cluster }) if cluster == "users"
    ));
    assert!(matches!(parse_line("CLEAR_ALL"), Some(Command::ClearAll)));
}

#[test]
fn every_command_reads_back_from_its_own_line() {
    let commands = vec![
        Command::SetValue { cluster: text("a-b"), key: text("k]x\"y"), value: vec![1, 20, 255] },
        Command::SetValue { cluster: text("c"), key: text("k"), value: vec![] },
        Command::Incr { cluster: text("c"), key: text("n"), result: i32::MAX },
        Command::Decr { cluster: text("c"), key: text("n"), result: 0 },
        Command::Incr { cluster: text("c"), key: text("n"), result: i32::MIN },
        Command::Del { cluster: text("c"), key: text("k[1]") },
        Command::ClearCluster { cluster: text("c[") },
        Command::ClearAll,
    ];
    for command in commands {
        let line = command.line();
        let back = parse_line(&line).unwrap();
        assert_eq!(back.line(), line);
        assert_eq!(format!("{:?}", back), format!("{:?}", command));
    }
}

#[test]
fn a_name_with_a_blank_or_an_opening_bracket_does_not_read_back() {
    let blank = Command::SetValue { cluster: text("c"), key: text("a b"), value: vec![1] };
    assert!(parse_line(&blank.line()).is_none());
    let bracket = Command::SetValue { cluster: text("c"), key: text("a[b"), value: vec![1] };
    assert!(parse_line(&bracket.line()).is_none());
    let empty = Command::SetValue { cluster: text("c"), key: text(""), value: vec![1] };
    assert!(parse_line(&empty.line()).is_none());
    let quoted = Command::Del { cluster: text("c"), key: text("k\"") };
    assert!(matches!(
        parse_line(&quoted.line()),
        Some(Command::Del { key, .. }) if key == "k"
    ));
}

#[test]
fn the_reader_tolerates_spacing_quotes_and_closing_brackets() {
    let expected = Some((text("c"), text("k"), vec![1, 2, 3]));
    assert_eq!(parsed_set("SET c k [1,2,3]"), expected);
    assert_eq!(parsed_set("SET c k [ 1 , 2 , 3 ]"), expected);
    assert_eq!(parsed_set("  SET   c \t k   [1, 2, 3]  "), expected);
    assert_eq!(parsed_set("\"SET c k [1, 2, 3]\""), expected);
    assert_eq!(parsed_set("SET c k [1, 2, 3]]]"), expected);
    assert_eq!(parsed_set("SET c k [1, 2, 3"), expected);
    assert_eq!(parsed_set("SET c k [+1, 02, 003]"), expected);
    assert_eq!(parsed_set("SET c k 5"), Some((text("c"), text("k"), vec![5])));
    assert_eq!(parsed_set("SET c [k] 5"), Some((text("c"), text("[k]"), vec![5])));
    assert!(matches!(parse_line("CLEAR_ALL now"), Some(Command::ClearAll)));
}

#[test]
fn malformed_lines_are_read_as_nothing() {
    for line in [
        "",
        "   ",
        "FOO c k",
        "set c k [1]",
        "SET",
        "SET c",
        "SET c k",
        "SET c k v",
        "SET c k [1, x]",
        "SET c k [256]",
        "SET c k [1,,2]",
        "SET c k [1, 2,]",
        "SET c k [-1]",
        "SET c k [1] extra",
        "SET c k extra [1]",
        "SET c k[1]",
        "INCR c n [1, 0, 0]",
        "INCR c n [1, 0, 0, 0, 0]",
        "INCR c n []",
        "DECR c n [1]",
        "DEL c",
        "DEL c k extra",
        "CLEAR_CLUSTER",
        "CLEAR_CLUSTER a b",
    ] {
        assert!(parse_line(line).is_none(), "{:?} should be malformed", line);
    }
}

#[test]
fn a_replay_reproduces_what_was_logged() {
    let mut first = persistent_engine();
    assert!(first.set(text("users"), text("a"), vec![1, 2, 3], None, false));
    assert!(first.set(text("users"), text("b"), vec![], None, false));
    assert!(first.set(text("users"), text("a"), vec![9], None, false));
    assert!(first.incr(text("c"), text("n"), None, false));
    assert!(first.incr(text("c"), text("n"), Some(4), false));
    assert!(first.decr(text("c"), text("n"), Some(2), false));
    assert!(first.set(text("gone"), text("x"), vec![1], None, false));
    first.clear_cluster("gone", false);
    assert!(first.set(text("users"), text("c"), vec![5, 5], None, false));
    first.delete("users", "b", false);
    let lines = first.take_pending();

    let mut second = persistent_engine();
    assert_eq!(second.initialize_from_commands(&lines), 0);
    assert_eq!(second.get_all_clusters(), first.get_all_clusters());
    for cluster in first.get_all_clusters() {
        let keys = first.get_keys_of_cluster(&cluster).unwrap();
        assert_eq!(second.get_keys_of_cluster(&cluster), Some(keys.clone()));
        for key in keys {
            let expected = first.get(&cluster, &key);
            let found = second.get(&cluster, &key);
            assert_eq!(found.value, expected.value);
            assert_eq!(found.value_type, expected.value_type);
        }
    }
    assert_eq!(second.get("c", "n").value, Some(vec![3, 0, 0, 0]));
    assert_eq!(second.get("c", "n").value_type, Some(CacheType::Int));
    assert_eq!(second.memory_handler.current_memory(), first.memory_handler.current_memory());
    assert_eq!(second.take_pending(), Vec::<String>::new());
}

#[test]
fn values_with_a_time_to_live_are_absent_after_a_replay() {
    let mut first = persistent_engine();
    assert!(first.set(text("c"), text("kept"), vec![1], None, false));
    assert!(first.set(text("c"), text("timed"), vec![2], Some(60_000), false));
    assert!(first.set(text("t"), text("timed"), vec![3], Some(60_000), false));
    let lines = first.take_pending();
    let mut second = persistent_engine();
    assert_eq!(second.initialize_from_commands(&lines), 0);
    assert_eq!(second.get_all_clusters(), vec![text("c")]);
    assert_eq!(second.get_keys_of_cluster("c"), Some(vec![text("kept")]));
    assert_eq!(second.get("c", "timed").value, None);
}

#[test]
fn a_replayed_clear_all_empties_the_store() {
    let mut cache = persistent_engine();
    let lines = vec![text("SET a k [1]"), text("SET b k [2]"), text("CLEAR_ALL"), text("SET c k [3]")];
    assert_eq!(cache.initialize_from_commands(&lines), 0);
    assert_eq!(cache.get_all_clusters(), vec![text("c")]);
    assert_eq!(cache.memory_handler.current_memory(), 1);
}

#[test]
fn a_replay_passes_over_malformed_lines_and_counts_them() {
    let mut cache = persistent_engine();
    let lines = vec![
        text("SET c a [1]"),
        text("garbage"),
        text(""),
        text("SET c b [2, x]"),
        text("\"SET c b [2]\""),
        text("DEL c"),
        text("INCR c n [7, 0, 0, 0]"),
    ];
    assert_eq!(cache.initialize_from_commands(&lines), 4);
    assert_eq!(cache.get_keys_of_cluster("c"), Some(vec![text("a"), text("b"), text("n")]));
    assert_eq!(cache.get("c", "n").value, Some(vec![7, 0, 0, 0]));
    assert_eq!(cache.take_pending(), Vec::<String>::new());
}

#[test]
fn a_replayed_counter_keeps_the_kind_and_expiry_of_an_entry_that_is_there() {
    let mut cache = persistent_engine();
    assert!(cache.set_at(text("c"), text("n"), vec![1, 0, 0, 0, 9], Some(50), true, 0, 0));
    assert!(cache.execute_command_at("INCR c n [8, 0, 0, 0]", 1, 0));
    let entry = cache.peek("c", "n").unwrap();
    assert_eq!(entry.value, vec![8, 0, 0, 0]);
    assert_eq!(entry.kind, CacheType::Str);
    assert_eq!(entry.absolute_expiry, Some(50));
    assert!(!cache.execute_command("nonsense"));
    assert!(cache.execute_command("DEL c n"));
    assert!(cache.peek("c", "n").is_none());
}

#[test]
fn expire_key_is_not_logged() {
    let mut cache = persistent_engine();
    assert!(cache.set(text("c"), text("k"), vec![1], None, true));
    assert!(cache.expire_key(&text("c"), &text("k"), &1000));
    assert_eq!(cache.take_pending(), Vec::<String>::new());
}

#[test]
fn the_file_of_a_day_is_named_after_the_day() {
    assert_eq!(
        persistent_file_name(Date { year: 2024, month: 3, day: 5 }),
        Some(text("persistent_05-03-2024.rus"))
    );
    assert_eq!(
        persistent_file_name(Date { year: 1999, month: 12, day: 31 }),
        Some(text("persistent_31-12-1999.rus"))
    );
    assert_eq!(
        persistent_file_name(Date { year: 7, month: 1, day: 1 }),
        Some(text("persistent_01-01-0007.rus"))
    );
    assert_eq!(persistent_file_name(Date { year: 10000, month: 1, day: 1 }), None);
    assert_eq!(persistent_file_name(Date { year: -1, month: 1, day: 1 }), None);
    assert_eq!(persistent_file_name(Date { year: 2024, month: 100, day: 1 }), None);
}

#[test]
fn the_file_name_is_what_the_calendar_crate_formats() {
    for (year, month, day) in [(2024, 2, 29), (2000, 1, 1), (1970, 10, 9), (9999, 12, 31), (0, 1, 1)] {
        let date = chrono::NaiveDate::from_ymd_opt(year, month, day).unwrap();
        assert_eq!(
            persistent_file_name(Date { year, month, day }),
            Some(format!("persistent_{}.rus", date.format("%d-%m-%Y")))
        );
    }
}

#[test]
fn the_file_due_for_removal_is_the_one_of_the_day_that_lies_back() {
    let today = Date { year: 2024, month: 3, day: 5 };
    assert_eq!(retention_target(today, 7), Some(text("persistent_27-02-2024.rus")));
    assert_eq!(retention_target(today, 0), Some(text("persistent_05-03-2024.rus")));
    assert_eq!(retention_target(today, 5), Some(text("persistent_29-02-2024.rus")));
    assert_eq!(retention_target(today, 366), Some(text("persistent_05-03-2023.rus")));
    assert_eq!(retention_target(today, -1), Some(text("persistent_06-03-2024.rus")));
    assert_eq!(retention_target(Date { year: 2023, month: 3, day: 1 }, 1), Some(text("persistent_28-02-2023.rus")));
}

#[test]
fn there_is_no_file_due_where_the_calendar_has_no_such_day() {
    assert_eq!(retention_target(Date { year: 2023, month: 2, day: 29 }, 1), None);
    assert_eq!(retention_target(Date { year: 2024, month: 13, day: 1 }, 1), None);
    assert_eq!(retention_target(Date { year: 2024, month: 3, day: 5 }, i64::MAX), None);
    assert_eq!(retention_target(Date { year: 2024, month: 3, day: 5 }, 1_000_000_000), None);
    assert_eq!(retention_target(Date { year: 0, month: 1, day: 1 }, 1), None);
}

#[test]
fn today_is_a_day_of_the_calendar() {
    let before = today();
    let due = run_retention_policy(0);
    let after = today();
    assert!(1 <= before.month && before.month <= 12);
    assert!(1 <= before.day && before.day <= 31);
    assert!(chrono::NaiveDate::from_ymd_opt(before.year, before.month, before.day).is_some());
    assert!(due == persistent_file_name(before) || due == persistent_file_name(after));
}
