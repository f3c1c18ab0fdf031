use proc_macro2::Span;
use sqly::attrs::Rename;
use sqly::builder::Build;
use sqly::construct::{contract_path, join_parts};
use sqly::escape::Escape;
use sqly::params::{Index, Params, Value};
use sqly::write::decimal_string;

fn apply(params: &mut Params, src: &str) -> String {
    let mut dst = String::new();
    params.apply(&mut dst, src, Span::call_site()).map_err(|e| e.message).unwrap();
    dst
}

fn escape(s: &str) -> String {
    let mut e = Escape(String::new());
    e.write_str(s);
    e.into_inner()
}

#[test]
fn plain_text_unchanged() {
    let mut p = Params::default();
    assert_eq!(apply(&mut p, "SELECT * FROM t WHERE a = 1"), "SELECT * FROM t WHERE a = 1");
}

#[test]
fn dollar_dollar_is_dollar() {
    let mut p = Params::default();
    assert_eq!(apply(&mut p, "a$$b$$"), "a$b$");
}

#[test]
fn braced_name_same_as_bare() {
    let mut p = Params::default();
    p.put("col", Value::text("name"));
    assert_eq!(apply(&mut p, "${col}"), apply(&mut p, "$col"));
    assert_eq!(apply(&mut p, "${col}"), "name");
}

#[test]
fn escape_concatenates() {
    assert_eq!(escape("a{b}"), escape("a{") + &escape("b}"));
    assert_eq!(escape("{}"), "{{}}");
    assert_eq!(escape("plain text"), "plain text");
}

#[test]
fn binds_placed_once_in_order() {
    let mut p = Params::default();
    let x = p.cell(Index::unset(0, "x".to_string()));
    let y = p.cell(Index::unset(1, "y".to_string()));
    p.put("x", Value::Cell(x));
    p.put("y", Value::Cell(y));
    assert_eq!(apply(&mut p, "$y = $x OR $y"), "$1 = $2 OR $1");
    assert_eq!(p.take(), vec![1, 0]);
}

#[test]
fn set_then_get() {
    let mut p = Params::default();
    p.put("k", Value::text("one"));
    p.displace("k", Value::text("two"));
    let text = |v: &Value| match v { Value::Text(t) => t.clone(), Value::Cell(_) => String::new() };
    assert_eq!(p.get("k").map(text), Some("two".to_string()));
    assert_eq!(p.get("self__k").map(text), Some("one".to_string()));
    p.ensure("k");
    assert!(p.get("k").is_none());
    assert_eq!(p.get("self__k").map(text), Some("two".to_string()));
    assert_eq!(p.get("self__self__k").map(text), Some("one".to_string()));
}

#[test]
fn cut_takes_suffix() {
    let mut b = Build::new(false, true, true);
    b.str("a AND\n");
    assert!(b.cut(&[" AND\n"]));
    assert_eq!(b.string.as_deref(), Some("a"));
    assert_eq!(b.checking.as_deref(), Some("a"));
    assert!(!b.cut(&[" AND\n"]));
    assert_eq!(b.string.as_deref(), Some("a"));
}

#[test]
fn dynamic_cut_left_for_run_time() {
    let mut b = Build::new(true, false, false);
    b.str("x");
    b.put();
    assert!(b.cut(&[" AND\n"]));
    let steps = b.stream.as_ref().map(|s| s.len());
    assert_eq!(steps, Some(2));
}

#[test]
fn contracted_paths_distinct() {
    let all = vec![
        (vec![], "A".to_string()),
        (vec!["b".to_string()], "B".to_string()),
        (vec!["b".to_string(), "c".to_string()], "C".to_string()),
        (vec!["d".to_string(), "c".to_string()], "C".to_string()),
    ];
    let one = contract_path(&all, &all[2].0);
    let two = contract_path(&all, &all[3].0);
    assert_ne!(one, two);
    assert_eq!(join_parts(&one), "b__c");
    assert_eq!(join_parts(&two), "d__c");
    assert_eq!(join_parts(&contract_path(&all, &all[1].0)), "b");
}

#[test]
fn renames() {
    assert_eq!(Rename::SnakeCase.rename("BookTitle"), "book_title");
    assert_eq!(Rename::CamelCase.rename("book_title"), "bookTitle");
    assert_eq!(Rename::PascalCase.rename("book_title"), "BookTitle");
    assert_eq!(Rename::KebabCase.rename("BookTitle"), "book-title");
    assert_eq!(Rename::UpperSnakeCase.rename("bookTitle"), "BOOK_TITLE");
    assert_eq!(Rename::UpperKebabCase.rename("bookTitle"), "BOOK-TITLE");
    assert_eq!(Rename::LowerCase.rename("Book"), "book");
    assert_eq!(Rename::UpperCase.rename("Book"), "BOOK");
    assert_eq!(Rename::Unchanged.rename("Book"), "Book");
}

#[test]
fn decimals() {
    assert_eq!(decimal_string(0), "0");
    assert_eq!(decimal_string(7), "7");
    assert_eq!(decimal_string(1203), "1203");
}
