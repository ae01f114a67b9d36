use sc4::CaseManipulator;
use sc4::Cases;

fn convert(text: &str, target: Cases) -> String {
    let mut cm = CaseManipulator::new(text);
    cm.convert_into(target)
}

#[test]
fn classify_snake() {
    assert_eq!(CaseManipulator::new("foo_bar").get_case(), Some(Cases::SnakeCase));
}

#[test]
fn classify_camel() {
    assert_eq!(CaseManipulator::new("FooBar").get_case(), Some(Cases::CamelCase));
}

#[test]
fn classify_kebab() {
    assert_eq!(CaseManipulator::new("foo-bar").get_case(), Some(Cases::KebabCase));
}

#[test]
fn classify_single_word_is_snake() {
    assert_eq!(CaseManipulator::new("foo").get_case(), Some(Cases::SnakeCase));
}

#[test]
fn classify_digits_undetected() {
    assert_eq!(CaseManipulator::new("foo123").get_case(), None);
}

#[test]
fn classify_empty_undetected() {
    assert_eq!(CaseManipulator::new("").get_case(), None);
}

#[test]
fn classify_predicates() {
    let cm = CaseManipulator::new("foo_bar");
    assert!(cm.is_snake_case());
    assert!(!cm.is_camel_case());
    assert!(!cm.is_kebab_case());
}

#[test]
fn classify_rejects_adjacent_separators() {
    assert_eq!(CaseManipulator::new("a__b").get_case(), None);
    assert_eq!(CaseManipulator::new("a--b").get_case(), None);
    assert_eq!(CaseManipulator::new("_ab").get_case(), None);
    assert_eq!(CaseManipulator::new("ab_").get_case(), None);
}

#[test]
fn classify_consecutive_uppercase_is_camel() {
    assert_eq!(CaseManipulator::new("ABCdef").get_case(), Some(Cases::CamelCase));
}

#[test]
fn convert_snake_to_camel() {
    assert_eq!(convert("foo_bar", Cases::CamelCase), "FooBar");
}

#[test]
fn convert_camel_to_snake() {
    assert_eq!(convert("FooBar", Cases::SnakeCase), "foo_bar");
}

#[test]
fn convert_kebab_to_camel() {
    assert_eq!(convert("foo-bar", Cases::CamelCase), "FooBar");
}

#[test]
fn convert_snake_to_kebab() {
    assert_eq!(convert("foo_bar", Cases::KebabCase), "foo-bar");
}

#[test]
fn convert_single_word() {
    assert_eq!(convert("foo", Cases::CamelCase), "Foo");
    assert_eq!(convert("foo", Cases::SnakeCase), "foo");
    assert_eq!(convert("foo", Cases::KebabCase), "foo");
}

#[test]
fn convert_consecutive_uppercase_to_snake() {
    assert_eq!(convert("ABCdef", Cases::SnakeCase), "a_b_cdef");
}

#[test]
fn convert_camel_keeps_tail_of_opaque_piece() {
    assert_eq!(convert("fooBar", Cases::CamelCase), "FooBar");
}

#[test]
fn convert_undetected_to_camel_capitalizes_first() {
    assert_eq!(convert("a__b", Cases::CamelCase), "A__b");
}

#[test]
fn default_conversion_targets() {
    assert_eq!(CaseManipulator::new("foo_bar").get_default_conversion(), Cases::CamelCase);
    assert_eq!(CaseManipulator::new("FooBar").get_default_conversion(), Cases::SnakeCase);
    assert_eq!(CaseManipulator::new("foo-bar").get_default_conversion(), Cases::CamelCase);
    assert_eq!(CaseManipulator::new("foo123").get_default_conversion(), Cases::CamelCase);
}

#[test]
fn snake_conversion_idempotent() {
    for x in ["foo_bar", "FooBar", "foo-bar", "fooBar", "FOO_BAR", "a__b", "foo123", ""] {
        let once = convert(x, Cases::SnakeCase);
        let twice = convert(&once, Cases::SnakeCase);
        assert_eq!(twice, once);
    }
}

#[test]
fn snake_conversion_not_idempotent_on_hyphenated_opaque_text() {
    // "FOO-BAR" matches no style, so the first conversion only lowercases
    // it; the result is kebab-case, and the second conversion re-joins it
    // with underscores.
    let once = convert("FOO-BAR", Cases::SnakeCase);
    assert_eq!(once, "foo-bar");
    let twice = convert(&once, Cases::SnakeCase);
    assert_eq!(twice, "foo_bar");
}

#[test]
fn camel_snake_round_trip_not_guaranteed() {
    let camel = convert("Ab1Cd", Cases::CamelCase);
    assert_eq!(camel, "Ab1Cd");
    let back = convert(&camel, Cases::SnakeCase);
    assert_eq!(back, "ab1cd");
    assert_ne!(back, "Ab1Cd");
}

#[test]
fn letterless_text_unchanged_by_any_target() {
    for x in ["123", "+*!", "_-_", ""] {
        assert_eq!(CaseManipulator::new(x).get_case(), None);
        assert_eq!(convert(x, Cases::SnakeCase), x);
        assert_eq!(convert(x, Cases::CamelCase), x);
        assert_eq!(convert(x, Cases::KebabCase), x);
    }
}

#[test]
fn non_ascii_text_is_one_opaque_piece() {
    assert_eq!(CaseManipulator::new("föo").get_case(), None);
    assert_eq!(convert("föo", Cases::CamelCase), "Föo");
    assert_eq!(convert("föo", Cases::SnakeCase), "föo");
    assert_eq!(convert("日本語", Cases::SnakeCase), "日本語");
}

#[test]
fn break_snake_keeps_empty_pieces() {
    let cm = CaseManipulator::new("a__b");
    assert_eq!(cm.break_snake_case(), vec!["a", "", "b"]);
}

#[test]
fn break_kebab_keeps_empty_pieces() {
    let cm = CaseManipulator::new("-a-");
    assert_eq!(cm.break_kebab_case(), vec!["", "a", ""]);
}

#[test]
fn break_camel_groups() {
    let cm = CaseManipulator::new("ABCdef");
    assert_eq!(cm.break_camel_case(), vec!["A", "B", "Cdef"]);
}

#[test]
fn break_camel_drops_uncovered_characters() {
    let cm = CaseManipulator::new("xyAb1Cd");
    assert_eq!(cm.break_camel_case(), vec!["Ab", "Cd"]);
}

#[test]
fn char_case_mapping() {
    assert_eq!(sc4::lower_char('A'), 'a');
    assert_eq!(sc4::lower_char('z'), 'z');
    assert_eq!(sc4::lower_char('1'), '1');
    assert_eq!(sc4::upper_char('a'), 'A');
    assert_eq!(sc4::upper_char('Z'), 'Z');
    assert_eq!(sc4::upper_char('-'), '-');
}

#[test]
fn conversion_leaves_text_unchanged() {
    let mut cm = CaseManipulator::new("foo_bar");
    let first = cm.convert_into(Cases::CamelCase);
    let second = cm.convert_into(Cases::CamelCase);
    assert_eq!(first, second);
}
