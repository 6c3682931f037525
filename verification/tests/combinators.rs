use morsec_rs::{
    bind, many, optional, prefix, take_both, take_left, take_or, take_right, while_parse, wrap,
    MorsecStr, Parser,
};

fn cursor(text: &str) -> MorsecStr {
    MorsecStr::from(text.to_string())
}

fn lit(text: &str) -> impl Parser<String> + 'static {
    prefix(text.to_string())
}

fn digits() -> impl Parser<String> + 'static {
    while_parse(|c: char| c.is_ascii_digit())
}

#[test]
fn map_transforms_the_value() {
    let parser = morsec_rs::map(lit("hello"), |s: String| s.to_uppercase());
    let (rest, value) = parser.parse(cursor("hello, world")).unwrap();
    assert_eq!(value, "HELLO");
    assert_eq!(rest.text(), ", world");
    assert_eq!(rest.position(), 5);
}

#[test]
fn map_may_change_the_type() {
    let parser = morsec_rs::map(digits(), |s: String| s.len());
    let (rest, value) = parser.parse(cursor("12345x")).unwrap();
    assert_eq!(value, 5);
    assert_eq!(rest.position(), 5);
}

#[test]
fn map_hands_a_failure_on_unchanged() {
    let parser = morsec_rs::map(lit("a"), |s: String| s.len());
    let failure = parser.parse(cursor("b")).unwrap_err();
    assert_eq!(failure.position, 0);
    assert_eq!(failure.message, "Expected prefix 'a' but got 'b'");
}

#[test]
fn bind_lets_the_value_choose_the_next_parser() {
    let parser = bind(digits(), |count: String| prefix("x".repeat(count.len())));
    let (rest, value) = parser.parse(cursor("123xxxy")).unwrap();
    assert_eq!(value, "xxx");
    assert_eq!(rest.position(), 6);
    assert_eq!(rest.text(), "y");
}

#[test]
fn bind_fails_where_the_second_parser_stood() {
    let parser = bind(digits(), |count: String| prefix("x".repeat(count.len())));
    let failure = parser.parse(cursor("123xxy")).unwrap_err();
    assert_eq!(failure.position, 3);
    assert_eq!(failure.message, "Expected prefix 'xxx' but got 'xxy'");
}

#[test]
fn bind_hands_the_first_failure_on_unchanged() {
    let parser = bind(lit("a"), |_: String| wrap(1u8));
    let failure = parser.parse(cursor("b")).unwrap_err();
    assert_eq!(failure.position, 0);
    assert_eq!(failure.message, "Expected prefix 'a' but got 'b'");
}

#[test]
fn bind_takes_parsers_of_different_shapes_in_boxes() {
    let parser = bind(
        take_or(lit("n"), lit("s")),
        |kind: String| -> Box<dyn Parser<String>> {
            if kind == "n" {
                Box::new(digits())
            } else {
                Box::new(take_left(while_parse(|c: char| c != ';'), prefix(";".to_string())))
            }
        },
    );
    let (rest, value) = parser.parse(cursor("n42;")).unwrap();
    assert_eq!(value, "42");
    assert_eq!(rest.text(), ";");
    let (rest, value) = parser.parse(cursor("sab c;d")).unwrap();
    assert_eq!(value, "ab c");
    assert_eq!(rest.text(), "d");
    assert_eq!(rest.position(), 6);
}

#[test]
fn a_boxed_parser_is_the_parser_in_the_box() {
    let boxed: Box<dyn Parser<String>> = Box::new(lit("ab"));
    let (rest, value) = boxed.parse(cursor("abc")).unwrap();
    assert_eq!(value, "ab");
    assert_eq!(rest.position(), 2);
    let parser = take_right(boxed, lit("c"));
    let (rest, value) = parser.parse(cursor("abc")).unwrap();
    assert_eq!(value, "c");
    assert_eq!(rest.position(), 3);
}

#[test]
fn take_left_keeps_the_left_value() {
    let parser = take_left(lit("key"), lit("="));
    let (rest, value) = parser.parse(cursor("key=1")).unwrap();
    assert_eq!(value, "key");
    assert_eq!(rest.position(), 4);
    assert_eq!(rest.text(), "1");
}

#[test]
fn take_right_keeps_the_right_value() {
    let parser = take_right(lit("key"), lit("="));
    let (rest, value) = parser.parse(cursor("key=1")).unwrap();
    assert_eq!(value, "=");
    assert_eq!(rest.position(), 4);
    assert_eq!(rest.text(), "1");
}

#[test]
fn take_both_keeps_both_values() {
    let parser = take_both(lit("key"), digits());
    let (rest, value) = parser.parse(cursor("key12 ")).unwrap();
    assert_eq!(value, ("key".to_string(), "12".to_string()));
    assert_eq!(rest.position(), 5);
    assert_eq!(rest.text(), " ");
}

#[test]
fn a_sequence_fails_with_the_first_failure() {
    let failure = take_left(lit("a"), lit("b")).parse(cursor("xb")).unwrap_err();
    assert_eq!(failure.position, 0);
    assert_eq!(failure.message, "Expected prefix 'a' but got 'x'");
    let failure = take_right(lit("a"), lit("b")).parse(cursor("xb")).unwrap_err();
    assert_eq!(failure.position, 0);
    assert_eq!(failure.message, "Expected prefix 'a' but got 'x'");
    let failure = take_both(lit("a"), lit("b")).parse(cursor("xb")).unwrap_err();
    assert_eq!(failure.position, 0);
    assert_eq!(failure.message, "Expected prefix 'a' but got 'x'");
}

#[test]
fn a_sequence_fails_where_the_second_parser_stood() {
    let failure = take_left(lit("a"), lit("b")).parse(cursor("ax")).unwrap_err();
    assert_eq!(failure.position, 1);
    assert_eq!(failure.message, "Expected prefix 'b' but got 'x'");
    let failure = take_right(lit("a"), lit("b")).parse(cursor("a")).unwrap_err();
    assert_eq!(failure.position, 1);
    assert_eq!(failure.message, "Expected prefix 'b' but got ''");
    let failure = take_both(lit("a"), lit("bc")).parse(cursor("abd")).unwrap_err();
    assert_eq!(failure.position, 1);
    assert_eq!(failure.message, "Expected prefix 'bc' but got 'bd'");
}

#[test]
fn take_or_returns_the_first_success() {
    let parser = take_or(lit("a"), lit("ab"));
    let (rest, value) = parser.parse(cursor("abc")).unwrap();
    assert_eq!(value, "a");
    assert_eq!(rest.position(), 1);
}

#[test]
fn take_or_tries_the_second_branch() {
    let parser = take_or(lit("a"), lit("b"));
    let (rest, value) = parser.parse(cursor("b")).unwrap();
    assert_eq!(value, "b");
    assert_eq!(rest.position(), 1);
    assert_eq!(rest.text(), "");
}

#[test]
fn take_or_joins_both_failures() {
    let parser = take_or(lit("a"), lit("b"));
    let failure = parser.parse(cursor("c")).unwrap_err();
    assert!(failure.message.contains("'a'"));
    assert!(failure.message.contains("'b'"));
    assert_eq!(
        failure.message,
        "Expected prefix 'a' but got 'c' or Expected prefix 'b' but got 'c'"
    );
    assert_eq!(failure.position, 0);
}

#[test]
fn take_or_starts_the_second_branch_from_the_same_cursor() {
    let parser = take_or(take_left(lit("a"), lit("b")), lit("ac"));
    let (rest, value) = parser.parse(cursor("acd")).unwrap();
    assert_eq!(value, "ac");
    assert_eq!(rest.position(), 2);
    assert_eq!(rest.text(), "d");
}

#[test]
fn take_or_fails_at_the_cursor_it_was_given() {
    let parser = take_right(lit("--"), take_or(take_left(lit("a"), lit("b")), lit("c")));
    let failure = parser.parse(cursor("--ax")).unwrap_err();
    assert_eq!(failure.position, 2);
    assert_eq!(
        failure.message,
        "Expected prefix 'b' but got 'x' or Expected prefix 'c' but got 'a'"
    );
}

#[test]
fn optional_produces_the_value_that_is_there() {
    let parser = optional(lit("-"));
    let (rest, value) = parser.parse(cursor("-5")).unwrap();
    assert_eq!(value, Some("-".to_string()));
    assert_eq!(rest.position(), 1);
    assert_eq!(rest.text(), "5");
}

#[test]
fn optional_leaves_the_cursor_where_nothing_is_there() {
    let parser = take_right(lit("x"), optional(lit("-")));
    let (rest, value) = parser.parse(cursor("x5")).unwrap();
    assert_eq!(value, None);
    assert_eq!(rest.position(), 1);
    assert_eq!(rest.text(), "5");
}

#[test]
fn optional_undoes_a_half_finished_sequence() {
    let parser = optional(take_left(lit("a"), lit("b")));
    let (rest, value) = parser.parse(cursor("ac")).unwrap();
    assert_eq!(value, None);
    assert_eq!(rest.position(), 0);
    assert_eq!(rest.text(), "ac");
}

#[test]
fn optional_succeeds_on_empty_input() {
    let (rest, value) = optional(lit("a")).parse(cursor("")).unwrap();
    assert_eq!(value, None);
    assert_eq!(rest.position(), 0);
}

#[test]
fn many_collects_in_order() {
    let parser = many(take_left(digits(), lit(",")));
    let (rest, value) = parser.parse(cursor("1,22,333,4")).unwrap();
    assert_eq!(value, vec!["1".to_string(), "22".to_string(), "333".to_string()]);
    assert_eq!(rest.position(), 9);
    assert_eq!(rest.text(), "4");
}

#[test]
fn many_of_nothing_is_empty() {
    let parser = many(lit("a"));
    let (rest, value) = parser.parse(cursor("bbb")).unwrap();
    assert_eq!(value, Vec::<String>::new());
    assert_eq!(rest.position(), 0);
    assert_eq!(rest.text(), "bbb");
}

#[test]
fn many_succeeds_on_empty_input() {
    let (rest, value) = many(lit("a")).parse(cursor("")).unwrap();
    assert_eq!(value, Vec::<String>::new());
    assert_eq!(rest.position(), 0);
}

#[test]
fn many_may_take_everything() {
    let (rest, value) = many(lit("ab")).parse(cursor("ababab")).unwrap();
    assert_eq!(value.len(), 3);
    assert_eq!(rest.position(), 6);
    assert_eq!(rest.text(), "");
}

#[test]
fn many_keeps_nothing_of_the_round_that_failed() {
    let parser = many(take_left(lit("a"), lit("b")));
    let (rest, value) = parser.parse(cursor("ababac")).unwrap();
    assert_eq!(value, vec!["a".to_string(), "a".to_string()]);
    assert_eq!(rest.position(), 4);
    assert_eq!(rest.text(), "ac");
}

#[test]
fn many_run_twice_gives_the_same_sequence() {
    let parser = many(take_or(lit("a"), lit("b")));
    let (first_rest, first) = parser.parse(cursor("abbac")).unwrap();
    let (second_rest, second) = parser.parse(cursor("abbac")).unwrap();
    assert_eq!(first, vec!["a", "b", "b", "a"]);
    assert_eq!(first, second);
    assert_eq!(first_rest.position(), second_rest.position());
    assert_eq!(first_rest.text(), second_rest.text());
}

#[test]
fn many_ends_on_a_parser_that_consumes_nothing() {
    let (rest, value) = many(wrap(1u8)).parse(cursor("abc")).unwrap();
    assert_eq!(value, Vec::<u8>::new());
    assert_eq!(rest.position(), 0);
    assert_eq!(rest.text(), "abc");
}

#[test]
fn many_keeps_only_the_rounds_that_consumed() {
    let (rest, value) = many(digits()).parse(cursor("123abc")).unwrap();
    assert_eq!(value, vec!["123".to_string()]);
    assert_eq!(rest.position(), 3);
    let (rest, value) = many(optional(lit("a"))).parse(cursor("aab")).unwrap();
    assert_eq!(value, vec![Some("a".to_string()), Some("a".to_string())]);
    assert_eq!(rest.position(), 2);
    assert_eq!(rest.text(), "b");
}

#[test]
fn many_of_many_ends() {
    let (rest, value) = many(many(lit("a"))).parse(cursor("aaab")).unwrap();
    assert_eq!(value, vec![vec!["a".to_string(), "a".to_string(), "a".to_string()]]);
    assert_eq!(rest.position(), 3);
}

#[test]
fn a_parser_can_be_run_on_many_cursors() {
    let parser = take_both(lit("a"), optional(lit("b")));
    let (_, first) = parser.parse(cursor("ab")).unwrap();
    let (_, second) = parser.parse(cursor("ac")).unwrap();
    assert_eq!(first, ("a".to_string(), Some("b".to_string())));
    assert_eq!(second, ("a".to_string(), None));
    assert!(parser.parse(cursor("b")).is_err());
}
