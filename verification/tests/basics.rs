//! Texts, orders, names and sets.

use reactive_scopes::codegen::hooks::{
    is_reactive_destructured_element, is_stable_hook_return, looks_like_hook_call,
};
use reactive_scopes::codegen::print::{
    binary_op_precedence, binary_op_str, escape_js_string, format_number, is_literal_primitive,
    is_valid_identifier, reorder_declarations, replace_whole_word,
};
use reactive_scopes::collections::{find_free_name, reversed, IdSet, IdTexts, NameSet};
use reactive_scopes::hir::{BinaryOperator, NumberLiteral};
use reactive_scopes::sorting::{dedup_texts, is_text_less, sort_positions, sort_texts};
use reactive_scopes::text::{
    cat3, contains, decimal_text, ends_with, is_temp_name_text, is_whitespace, join, lines, repeat, replace_all, trim,
};

fn texts(v: &[&str]) -> Vec<String> {
    v.iter().map(|s| s.to_string()).collect()
}

#[test]
fn texts_are_put_together() {
    assert_eq!(cat3("a", "b\u{e9}", "c"), "ab\u{e9}c");
    assert_eq!(join(&texts(&["a", "b", "c"]), ", "), "a, b, c");
    assert_eq!(repeat("ab", 3), "ababab");
    assert_eq!(decimal_text(0), "0");
    assert_eq!(decimal_text(1_234_567), "1234567");
}

#[test]
fn texts_are_searched() {
    assert!(contains("abcabd", "abd"));
    assert!(!contains("abcabd", "abe"));
    assert!(ends_with("abc", "bc"));
    assert_eq!(replace_all("aXbXX", "X", "yz"), "ayzbyzyz");
    assert_eq!(lines("a\nb\n"), texts(&["a", "b"]));
}

#[test]
fn whitespace_is_trimmed() {
    assert_eq!(trim("  a b\t\n"), "a b");
    assert_eq!(trim("\u{a0}\u{3000}x\u{2003}"), "x");
    assert_eq!(trim("\u{e9} "), "\u{e9}");
}

#[test]
fn names_of_temporaries() {
    assert!(is_temp_name_text("t0"));
    assert!(is_temp_name_text("t12"));
    assert!(!is_temp_name_text("t"));
    assert!(!is_temp_name_text("t1x"));
    assert!(!is_temp_name_text("x1"));
}

#[test]
fn hooks_are_known_by_their_names() {
    assert!(looks_like_hook_call("useState"));
    assert!(looks_like_hook_call("use\u{c9}tat"));
    assert!(!looks_like_hook_call("use\u{e9}tat"));
    assert!(!looks_like_hook_call("used"));
    assert!(!looks_like_hook_call("use"));
    assert!(is_stable_hook_return("useRef"));
    assert!(!is_stable_hook_return("useState"));
    assert!(is_reactive_destructured_element("useState", 0));
    assert!(!is_reactive_destructured_element("useState", 1));
}

#[test]
fn whole_words_are_replaced() {
    assert_eq!(replace_whole_word("t0 + t01 + at0 + t0.t0", "t0", "x"), "x + t01 + at0 + x.x");
    assert_eq!(replace_whole_word("\u{e9}t0 t0", "t0", "x"), "\u{e9}t0 x");
}

#[test]
fn strings_are_escaped_for_the_source() {
    assert_eq!(escape_js_string("plain"), "plain");
    assert_eq!(escape_js_string("a\"b\\c\n"), "a\\\"b\\\\c\\n");
    assert_eq!(escape_js_string("\u{1f600}"), "\\uD83D\\uDE00");
    assert_eq!(escape_js_string("\u{0}a"), "\\0a");
    assert_eq!(escape_js_string("\u{0}1"), "\\x001");
}

#[test]
fn numbers_are_written() {
    assert_eq!(format_number(&NumberLiteral { display: "12".to_string(), integer: Some(12) }), "12");
    assert_eq!(format_number(&NumberLiteral { display: "1.5".to_string(), integer: None }), "1.5");
}

#[test]
fn operators() {
    assert_eq!(binary_op_str(&BinaryOperator::StrictNotEq), "!==");
    assert_eq!(binary_op_str(&BinaryOperator::InstanceOf), "instanceof");
    assert_eq!(binary_op_precedence(&BinaryOperator::Mul), 14);
    assert_eq!(binary_op_precedence(&BinaryOperator::Exp), 15);
    assert!(
        binary_op_precedence(&BinaryOperator::Add) < binary_op_precedence(&BinaryOperator::Mul)
    );
}

#[test]
fn identifiers() {
    assert!(is_valid_identifier("a1"));
    assert!(is_valid_identifier("$x_"));
    assert!(!is_valid_identifier("1a"));
    assert!(!is_valid_identifier("a-b"));
    assert!(!is_valid_identifier(""));
}

#[test]
fn literals() {
    assert!(is_literal_primitive("null"));
    assert!(is_literal_primitive("\"a\""));
    assert!(is_literal_primitive("12"));
    assert!(is_literal_primitive("'a'"));
    assert!(is_literal_primitive("\"a\\\"b\""));
    assert!(is_literal_primitive("-1.5e3"));
    assert!(is_literal_primitive("Infinity"));
    assert!(!is_literal_primitive("x"));
    assert!(!is_literal_primitive("\"a\" + \"b\""));
    assert!(!is_literal_primitive("\"a\\\""));
}

#[test]
fn white_space_of_all_kinds() {
    for c in [' ', '\t', '\n', '\u{85}', '\u{a0}', '\u{1680}', '\u{200a}', '\u{2028}', '\u{3000}'] {
        assert!(is_whitespace(c));
    }
    for c in ['a', '\u{200b}', '\u{feff}', '\u{180e}'] {
        assert!(!is_whitespace(c));
    }
}

#[test]
fn declarations_come_in_order() {
    let mut v = texts(&["f();", "x = 1;", "y = 2;", "let y;", "let x;"]);
    reorder_declarations(&mut v);
    assert_eq!(v, texts(&["f();", "let x;", "x = 1;", "let y;", "y = 2;"]));
    let mut v = texts(&["x = 1;", "let t1;"]);
    reorder_declarations(&mut v);
    assert_eq!(v, texts(&["x = 1;", "let t1;"]));
}

#[test]
fn orders_of_texts() {
    assert!(is_text_less("a", "b"));
    assert!(is_text_less("a", "aa"));
    assert!(!is_text_less("b", "a"));
    assert!(!is_text_less("a", "a"));
    assert_eq!(sort_texts(&texts(&["c", "a", "b", "a"])), texts(&["a", "a", "b", "c"]));
    assert_eq!(sort_positions(&texts(&["c", "a", "b", "a"])), vec![1, 3, 2, 0]);
    assert_eq!(dedup_texts(&texts(&["a", "a", "b", "a"])), texts(&["a", "b", "a"]));
    assert_eq!(reversed(vec![1, 2, 3]), vec![3, 2, 1]);
}

#[test]
fn names_and_sets() {
    let mut names = NameSet::new();
    assert!(names.insert("b"));
    assert!(names.insert("a"));
    assert!(!names.insert("b"));
    assert!(names.contains("a"));
    assert!(!names.contains("c"));
    assert_eq!(names.in_order(), &texts(&["b", "a"]));
    names.remove("b");
    assert!(!names.contains("b"));
    let mut ids = IdSet::new();
    assert!(ids.insert(7));
    assert!(!ids.insert(7));
    ids.remove(7);
    assert!(ids.is_empty());
    let mut map = IdTexts::new();
    map.insert(1, "x".to_string());
    map.insert(1, "y".to_string());
    assert_eq!(map.get(1), Some(&"y".to_string()));
    assert!(map.get(2).is_none());
}

#[test]
fn free_names() {
    let mut first = NameSet::new();
    let mut second = NameSet::new();
    first.insert("t0");
    second.insert("t1");
    assert_eq!(find_free_name("t", 0, &first, &second), "t2");
    assert_eq!(find_free_name("t", 5, &first, &second), "t5");
    assert_eq!(find_free_name("$", 0, &first, &second), "$0");
}
