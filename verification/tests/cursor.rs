use morsec_rs::{MorsecError, MorsecStr};

fn cursor(text: &str) -> MorsecStr {
    MorsecStr::from(text.to_string())
}

#[test]
fn a_new_cursor_stands_at_the_beginning() {
    let start = cursor("hello");
    assert_eq!(start.position(), 0);
    assert_eq!(start.len(), 5);
    assert_eq!(start.text(), "hello");
}

#[test]
fn a_cursor_over_nothing_is_empty() {
    let start = cursor("");
    assert_eq!(start.position(), 0);
    assert_eq!(start.len(), 0);
    assert_eq!(start.text(), "");
    assert_eq!(start.get(0), None);
}

#[test]
fn get_reads_the_remaining_text() {
    let start = cursor("abc");
    assert_eq!(start.get(0), Some('a'));
    assert_eq!(start.get(2), Some('c'));
    assert_eq!(start.get(3), None);
    assert_eq!(start.get(usize::MAX), None);
    let rest = start.advance(1);
    assert_eq!(rest.get(0), Some('b'));
    assert_eq!(rest.get(1), Some('c'));
    assert_eq!(rest.get(2), None);
}

#[test]
fn advance_moves_position_and_text_together() {
    let start = cursor("hello, world");
    let rest = start.advance(5);
    assert_eq!(rest.position(), 5);
    assert_eq!(rest.len(), 7);
    assert_eq!(rest.text(), ", world");
    let end = rest.advance(7);
    assert_eq!(end.position(), 12);
    assert_eq!(end.len(), 0);
    assert_eq!(end.text(), "");
}

#[test]
fn advance_by_nothing_changes_nothing() {
    let rest = cursor("abc").advance(2).advance(0);
    assert_eq!(rest.position(), 2);
    assert_eq!(rest.text(), "c");
}

#[test]
fn position_and_length_add_up_to_the_input() {
    let text = "one two three";
    let total = text.chars().count();
    let mut at = cursor(text);
    for step in [0usize, 1, 3, 4, 5] {
        at = at.advance(step);
        assert_eq!(at.position() + at.len(), total);
        assert_eq!(at.text(), text.chars().skip(at.position()).collect::<String>());
    }
    assert_eq!(at.len(), 0);
}

#[test]
fn take_copies_the_head_of_the_remaining_text() {
    let rest = cursor("hello, world").advance(7);
    assert_eq!(rest.take(0), "");
    assert_eq!(rest.take(3), "wor");
    assert_eq!(rest.take(5), "world");
    assert_eq!(rest.position(), 7);
}

#[test]
fn positions_count_characters_not_bytes() {
    let start = cursor("héllo wörld");
    assert_eq!(start.len(), 11);
    assert_eq!(start.get(1), Some('é'));
    let rest = start.advance(2);
    assert_eq!(rest.position(), 2);
    assert_eq!(rest.text(), "llo wörld");
    assert_eq!(rest.take(6), "llo wö");
}

#[test]
fn a_clone_is_a_cursor_at_the_same_place() {
    let rest = cursor("abcdef").advance(2);
    let copy = rest.clone();
    assert_eq!(copy.position(), 2);
    assert_eq!(copy.text(), "cdef");
    let further = copy.advance(3);
    assert_eq!(further.text(), "f");
    assert_eq!(rest.position(), 2);
    assert_eq!(rest.text(), "cdef");
}

#[test]
fn a_failure_is_cloned_field_by_field() {
    let failure = MorsecError { message: "no".to_string(), position: 4 };
    let copy = failure.clone();
    assert_eq!(copy.message, "no");
    assert_eq!(copy.position, 4);
    assert_eq!(failure.message, "no");
}

#[test]
fn advance_stops_at_the_end_of_the_input() {
    let end = cursor("abc").advance(7);
    assert_eq!(end.position(), 3);
    assert_eq!(end.len(), 0);
    assert_eq!(end.text(), "");
    let still = end.advance(usize::MAX);
    assert_eq!(still.position(), 3);
}

#[test]
fn take_gives_what_remains_where_less_is_left() {
    let rest = cursor("abc").advance(1);
    assert_eq!(rest.take(2), "bc");
    assert_eq!(rest.take(3), "bc");
    assert_eq!(rest.take(usize::MAX), "bc");
}
