use quebrix::convert::{i32_to_vec, leading_i32, vec_to_i32};
use quebrix::memory_handling::memory_handling::{megabytes_to_bytes, MemoryHandler};

#[test]
fn counters_are_written_least_significant_byte_first() {
    assert_eq!(i32_to_vec(1), vec![1, 0, 0, 0]);
    assert_eq!(i32_to_vec(0), vec![0, 0, 0, 0]);
    assert_eq!(i32_to_vec(258), vec![2, 1, 0, 0]);
    assert_eq!(i32_to_vec(-1), vec![255, 255, 255, 255]);
    assert_eq!(i32_to_vec(i32::MAX), vec![255, 255, 255, 127]);
    assert_eq!(i32_to_vec(i32::MIN), vec![0, 0, 0, 128]);
    assert_eq!(i32_to_vec(0x0403_0201), vec![1, 2, 3, 4]);
}

#[test]
fn counters_are_read_from_exactly_four_bytes() {
    assert_eq!(vec_to_i32(vec![1, 0, 0, 0]), Some(1));
    assert_eq!(vec_to_i32(vec![255, 255, 255, 255]), Some(-1));
    assert_eq!(vec_to_i32(vec![0, 0, 0, 128]), Some(i32::MIN));
    assert_eq!(vec_to_i32(vec![1, 2, 3, 4]), Some(0x0403_0201));
    assert_eq!(vec_to_i32(vec![]), None);
    assert_eq!(vec_to_i32(vec![1, 2, 3]), None);
    assert_eq!(vec_to_i32(vec![1, 2, 3, 4, 5]), None);
}

#[test]
fn counters_read_back_as_they_were_written() {
    for value in [0, 1, -1, 5, 255, 256, 65535, 65536, -65536, i32::MAX, i32::MIN, 123_456_789] {
        assert_eq!(vec_to_i32(i32_to_vec(value)), Some(value));
        assert_eq!(i32_to_vec(value), value.to_le_bytes().to_vec());
    }
}

#[test]
fn a_leading_counter_is_read_from_the_first_four_bytes() {
    assert_eq!(leading_i32(&vec![2, 1, 0, 0, 9, 9]), Some(258));
    assert_eq!(leading_i32(&vec![2, 1, 0, 0]), Some(258));
    assert_eq!(leading_i32(&vec![2, 1, 0]), None);
}

#[test]
fn a_mebibyte_has_1048576_bytes() {
    assert_eq!(megabytes_to_bytes(0), 0);
    assert_eq!(megabytes_to_bytes(1), 1_048_576);
    assert_eq!(megabytes_to_bytes(3), 3_145_728);
}

#[test]
fn the_accountant_starts_empty_with_its_limit_in_bytes() {
    let handler = MemoryHandler::new(2);
    assert_eq!(handler.current_memory(), 0);
    assert_eq!(handler.memory_size_limit(), 2_097_152);
    assert!(!handler.is_memory_limit_finished());
}

#[test]
fn the_accountant_adds_and_gives_back() {
    let mut handler = MemoryHandler::new(1);
    handler.add_memory(10);
    handler.add_memory(5);
    assert_eq!(handler.current_memory(), 15);
    handler.delete_memory(4);
    assert_eq!(handler.current_memory(), 11);
}

#[test]
fn the_accountant_stops_at_zero() {
    let mut handler = MemoryHandler::new(1);
    handler.add_memory(3);
    handler.delete_memory(10);
    assert_eq!(handler.current_memory(), 0);
    handler.delete_memory(1);
    assert_eq!(handler.current_memory(), 0);
}

#[test]
fn the_limit_is_exceeded_only_above_it() {
    let mut handler = MemoryHandler::new(1);
    handler.add_memory(1_048_576);
    assert!(!handler.is_memory_limit_finished());
    handler.add_memory(1);
    assert!(handler.is_memory_limit_finished());
    handler.delete_memory(1);
    assert!(!handler.is_memory_limit_finished());
}
