use hello_cargo::{borrow, mem_mgmt, mutability, ownership};
use hello_cargo::{first_space_index, first_word, reverse_string};

#[test]
fn first_word_is_the_text_before_the_first_space() {
    assert_eq!(first_word("Hello Rust programming language".to_string()), "Hello");
    assert_eq!(first_word("a b".to_string()), "a");
    assert_eq!(first_word(" leading".to_string()), "");
}

#[test]
fn first_word_of_a_sentence_without_space_is_empty() {
    assert_eq!(first_word("Hello".to_string()), "");
    assert_eq!(first_word("".to_string()), "");
}

#[test]
fn first_word_cuts_by_bytes_at_the_character_count() {
    assert_eq!(first_space_index("éé b"), 2);
    assert_eq!(first_word("éé b".to_string()), "é");
    assert_eq!(first_space_index("ab é c"), 2);
    assert_eq!(first_word("ab é c".to_string()), "ab");
}

#[test]
fn first_space_index_counts_characters() {
    assert_eq!(first_space_index("Hello Rust"), 5);
    assert_eq!(first_space_index("Hello"), 0);
    assert_eq!(first_space_index(""), 0);
    assert_eq!(first_space_index(" x"), 0);
}

#[test]
fn reverse_string_turns_the_characters_around() {
    assert_eq!(reverse_string("Rust".to_string()), "tsuR");
    assert_eq!(reverse_string("".to_string()), "");
    assert_eq!(reverse_string("a".to_string()), "a");
    assert_eq!(reverse_string("héllo wörld".to_string()), "dlröw olléh");
    assert_eq!(reverse_string(reverse_string("There and back".to_string())), "There and back");
}

#[test]
fn add_sums_two_integers() {
    assert_eq!(ownership::add(5, 10), 15);
    assert_eq!(ownership::add(-5, 5), 0);
    assert_eq!(ownership::add(i32::MAX, 0), i32::MAX);
    assert_eq!(ownership::add(i32::MIN, i32::MAX), -1);
}

#[test]
fn concatenate_joins_with_one_space() {
    assert_eq!(ownership::concatenate("Hello".to_string(), "World".to_string()), "Hello World");
    assert_eq!(ownership::concatenate("".to_string(), "".to_string()), " ");
}

#[test]
fn receipt_names_the_string_received() {
    assert_eq!(ownership::takes_ownership("abc".to_string()), "Received string: abc");
    assert_eq!(ownership::strings_in_funtions_2(), "Received string: Hello, Rust!");
    let lent = "Hello".to_string();
    assert_eq!(borrow::takes_ownership(&lent), "Received string: Hello");
    assert_eq!(lent, "Hello");
}

#[test]
fn world_is_appended_through_the_reference() {
    let mut text = "Hello, Rust!".to_string();
    borrow::update_string(&mut text);
    assert_eq!(text, "Hello, Rust!, world!");
    let mut text = "Hello".to_string();
    mutability::change_string(&mut text);
    assert_eq!(text, "Hello, world!");
    let mut text = String::new();
    mem_mgmt::change_string(&mut text);
    assert_eq!(text, ", world!");
}

#[test]
fn length_is_counted_in_bytes() {
    assert_eq!(mem_mgmt::calculate_length(&"Hello, borrowing!".to_string()), 17);
    assert_eq!(mem_mgmt::calculate_length(&"".to_string()), 0);
    assert_eq!(mem_mgmt::calculate_length(&"é".to_string()), 2);
}

#[test]
fn get_first_word_stops_at_the_first_space() {
    assert_eq!(mem_mgmt::get_first_word("Hello world programming"), "Hello");
    assert_eq!(mem_mgmt::get_first_word("Hello"), "Hello");
    assert_eq!(mem_mgmt::get_first_word(""), "");
    assert_eq!(mem_mgmt::get_first_word(" x"), "");
    assert_eq!(mem_mgmt::get_first_word("héé b"), "héé");
}

#[test]
fn longest_prefers_the_second_on_a_tie() {
    assert_eq!(mem_mgmt::longest("long string is long", "xyz"), "long string is long");
    assert_eq!(mem_mgmt::longest("xyz", "long string is long"), "long string is long");
    assert_eq!(mem_mgmt::longest("abc", "xyz"), "xyz");
    assert_eq!(mem_mgmt::longest("é", "ab"), "ab");
    assert_eq!(mem_mgmt::longest("éé", "abc"), "éé");
}
