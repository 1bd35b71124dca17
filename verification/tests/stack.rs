use lua_bridge::BoundaryError;
use lua_bridge::EngineState;
use lua_bridge::text_is_clean;

#[test]
fn string_round_trips_through_the_stack() {
    let mut e = EngineState::new();
    let stored = e.push_string("hello").unwrap();
    assert_eq!(stored, "hello");
    assert_eq!(e.get_type(-1), 4);
    assert_eq!(e.to_string(-1).unwrap(), "hello");
}

#[test]
fn integer_round_trips_through_the_stack() {
    let mut e = EngineState::new();
    e.push_integer(42);
    assert_eq!(e.get_type(-1), 3);
    assert_eq!(e.to_number(-1), 42);
}

#[test]
fn number_round_trips_through_the_stack() {
    let mut e = EngineState::new();
    e.push_number(-7);
    assert_eq!(e.get_type(-1), 3);
    assert_eq!(e.to_number(-1), -7);
}

#[test]
fn boolean_round_trips_through_the_stack() {
    let mut e = EngineState::new();
    e.push_boolean(0);
    assert!(!e.to_boolean(-1));
    e.push_boolean(2);
    assert!(e.to_boolean(-1));
    assert_eq!(e.get_type(-1), 1);
}

#[test]
fn nil_reads_as_nil_tag_and_false() {
    let mut e = EngineState::new();
    e.push_nil();
    assert_eq!(e.get_type(-1), 0);
    assert!(!e.to_boolean(-1));
}

#[test]
fn numbers_read_back_as_their_decimal_text() {
    let mut e = EngineState::new();
    e.push_integer(-12);
    assert_eq!(e.to_string(-1).unwrap(), "-12");
    e.push_number(5);
    assert_eq!(e.to_string(-1).unwrap(), "5.0");
    e.push_integer(i32::MAX);
    assert_eq!(e.to_string(-1).unwrap(), "2147483647");
    e.push_integer(i32::MIN);
    assert_eq!(e.to_string(-1).unwrap(), "-2147483648");
    e.push_integer(0);
    assert_eq!(e.to_string(-1).unwrap(), "0");
}

#[test]
fn numeric_strings_read_back_as_numbers() {
    let mut e = EngineState::new();
    e.push_string("10").unwrap();
    assert_eq!(e.to_number(-1), 10);
    e.push_string("-2147483648").unwrap();
    assert_eq!(e.to_number(-1), i32::MIN);
    e.push_string("2147483647").unwrap();
    assert_eq!(e.to_number(-1), i32::MAX);
    e.push_string("007").unwrap();
    assert_eq!(e.to_number(-1), 7);
}

#[test]
fn non_numeric_values_read_as_the_zero_fallback() {
    let mut e = EngineState::new();
    e.push_string("abc").unwrap();
    assert_eq!(e.to_number(-1), 0);
    e.push_string("").unwrap();
    assert_eq!(e.to_number(-1), 0);
    e.push_string("-").unwrap();
    assert_eq!(e.to_number(-1), 0);
    e.push_boolean(1);
    assert_eq!(e.to_number(-1), 0);
    e.push_nil();
    assert_eq!(e.to_number(-1), 0);
}

#[test]
fn texts_beyond_the_stated_grammar_get_no_promise() {
    // The number-reading contract pins nothing for decimal texts out of
    // the 32-bit range (the engine's wider grammar decides); this model
    // answers the zero fallback for them.
    let mut e = EngineState::new();
    e.push_string("2147483648").unwrap();
    assert_eq!(e.to_number(-1), 0);
    e.push_string("-2147483649").unwrap();
    assert_eq!(e.to_number(-1), 0);
}

#[test]
fn only_strings_and_numbers_have_a_text_reading() {
    let mut e = EngineState::new();
    e.push_boolean(1);
    assert!(e.to_string(-1).is_none());
    e.push_nil();
    assert!(e.to_string(-1).is_none());
    assert!(e.to_string(40).is_none());
}

#[test]
fn every_value_but_nil_and_false_is_truthy() {
    let mut e = EngineState::new();
    e.push_integer(0);
    assert!(e.to_boolean(-1));
    e.push_string("").unwrap();
    assert!(e.to_boolean(-1));
    e.push_number(0);
    assert!(e.to_boolean(-1));
}

#[test]
fn top_tracks_push_and_pop() {
    let mut e = EngineState::new();
    assert_eq!(e.get_top(), 0);
    e.push_string("keep").unwrap();
    let before = e.get_top();
    e.push_nil();
    assert_eq!(e.get_top(), before + 1);
    e.pop(1);
    assert_eq!(e.get_top(), before);
    assert_eq!(e.to_string(-1).unwrap(), "keep");
}

#[test]
fn positive_and_negative_positions_address_the_same_value() {
    let mut e = EngineState::new();
    e.push_string("a").unwrap();
    e.push_string("b").unwrap();
    e.push_string("c").unwrap();
    assert_eq!(e.to_string(1).unwrap(), "a");
    assert_eq!(e.to_string(-3).unwrap(), "a");
    assert_eq!(e.to_string(3).unwrap(), "c");
    assert_eq!(e.to_string(-1).unwrap(), "c");
}

#[test]
fn set_top_grows_with_nil_and_shrinks() {
    let mut e = EngineState::new();
    e.push_integer(1);
    e.push_integer(2);
    e.set_top(5);
    assert_eq!(e.get_top(), 5);
    assert_eq!(e.get_type(3), 0);
    assert_eq!(e.get_type(5), 0);
    assert_eq!(e.to_number(1), 1);
    e.set_top(1);
    assert_eq!(e.get_top(), 1);
    assert_eq!(e.to_number(-1), 1);
}

#[test]
fn set_top_accepts_top_relative_positions() {
    let mut e = EngineState::new();
    e.push_integer(1);
    e.push_integer(2);
    e.push_integer(3);
    e.set_top(-2);
    assert_eq!(e.get_top(), 2);
    assert_eq!(e.to_number(-1), 2);
}

#[test]
fn pop_removes_the_top_values() {
    let mut e = EngineState::new();
    e.push_integer(1);
    e.push_integer(2);
    e.push_integer(3);
    e.pop(2);
    assert_eq!(e.get_top(), 1);
    assert_eq!(e.to_number(-1), 1);
}

#[test]
fn replace_moves_the_top_into_the_position() {
    let mut e = EngineState::new();
    e.push_string("a").unwrap();
    e.push_string("b").unwrap();
    e.push_string("c").unwrap();
    e.replace(1);
    assert_eq!(e.get_top(), 2);
    assert_eq!(e.to_string(1).unwrap(), "c");
    assert_eq!(e.to_string(2).unwrap(), "b");
}

#[test]
fn replacing_the_top_with_itself_changes_nothing() {
    let mut e = EngineState::new();
    e.push_string("a").unwrap();
    e.push_string("b").unwrap();
    e.replace(-1);
    assert_eq!(e.get_top(), 2);
    assert_eq!(e.to_string(-1).unwrap(), "b");
}

#[test]
fn positions_off_the_stack_read_as_none() {
    let e = EngineState::new();
    assert_eq!(e.get_type(1), -1);
    assert_eq!(e.get_type(-1), -1);
    assert_eq!(e.get_type(0), -1);
    let mut e2 = EngineState::new();
    e2.push_nil();
    assert_eq!(e2.get_type(2), -1);
    assert_eq!(e2.get_type(-2), -1);
}

#[test]
fn text_with_an_embedded_nul_is_refused() {
    let mut e = EngineState::new();
    let r = e.push_string("a\0b");
    assert_eq!(r, Err(BoundaryError::EmbeddedNul));
    assert_eq!(e.get_top(), 0);
    e.push_integer(1);
    assert_eq!(e.set_global("na\0me"), Err(BoundaryError::EmbeddedNul));
    assert_eq!(e.get_top(), 1);
    assert!(!text_is_clean("\0"));
    assert!(text_is_clean("plain"));
}
