use gridstore::engine::{evaluate, Column, FilterSpec, SortKey};
use gridstore::record::Record;
use gridstore::text::contains_chars;

fn rec(id: u32, value: u64, name: &str) -> Record {
    Record {
        id,
        value,
        a: 0,
        b: 0,
        c: 0,
        d: 0,
        e: 0,
        f: 0,
        g: 0,
        h: 0,
        time_ms: 0,
        name: name.to_string(),
    }
}

fn no_filter() -> FilterSpec {
    FilterSpec { id: None, value: None, name: None }
}

#[test]
fn stable_sort_keeps_filtered_order_of_equal_rows() {
    let rows = vec![
        rec(0, 2, "x"),
        rec(1, 1, "x"),
        rec(2, 2, "x"),
        rec(3, 1, "x"),
    ];
    let keys = vec![SortKey { col: Column::Value, asc: true }];
    let v = evaluate(&rows, &no_filter(), &keys);
    assert_eq!(v, vec![1, 3, 0, 2]);
}

#[test]
fn descending_value_sort() {
    let rows = vec![rec(0, 5, "x"), rec(1, 9, "x"), rec(2, 1, "x")];
    let keys = vec![SortKey { col: Column::Value, asc: false }];
    let v = evaluate(&rows, &no_filter(), &keys);
    assert_eq!(v, vec![1, 0, 2]);
}

#[test]
fn name_sort_is_lexicographic() {
    let rows = vec![rec(0, 0, "beta"), rec(1, 0, "alpha"), rec(2, 0, "gamma")];
    let asc = vec![SortKey { col: Column::Name, asc: true }];
    assert_eq!(evaluate(&rows, &no_filter(), &asc), vec![1, 0, 2]);
    let desc = vec![SortKey { col: Column::Name, asc: false }];
    assert_eq!(evaluate(&rows, &no_filter(), &desc), vec![2, 0, 1]);
}

#[test]
fn later_keys_break_earlier_ties() {
    let rows = vec![
        rec(0, 7, "b"),
        rec(1, 7, "a"),
        rec(2, 3, "z"),
    ];
    let keys = vec![
        SortKey { col: Column::Value, asc: true },
        SortKey { col: Column::Name, asc: true },
    ];
    assert_eq!(evaluate(&rows, &no_filter(), &keys), vec![2, 1, 0]);
}

#[test]
fn name_filter_lowercases_both_sides() {
    let rows = vec![
        rec(0, 0, "Alpha"),
        rec(1, 0, "beta"),
        rec(2, 0, "ALPHAbet"),
    ];
    let f = FilterSpec { id: None, value: None, name: Some("alpha".to_string()) };
    assert_eq!(evaluate(&rows, &f, &vec![]), vec![0, 2]);
    let g = FilterSpec { id: None, value: None, name: Some("BET".to_string()) };
    assert_eq!(evaluate(&rows, &g, &vec![]), vec![1, 2]);
}

#[test]
fn conjunctive_clauses_must_all_pass() {
    let rows = vec![rec(0, 1, "aa"), rec(1, 1, "bb"), rec(2, 2, "aa")];
    let f = FilterSpec { id: None, value: Some(1), name: Some("a".to_string()) };
    assert_eq!(evaluate(&rows, &f, &vec![]), vec![0]);
}

#[test]
fn empty_specs_return_all_rows_in_order() {
    let rows = vec![rec(0, 3, "c"), rec(1, 2, "b"), rec(2, 1, "a")];
    assert_eq!(evaluate(&rows, &no_filter(), &vec![]), vec![0, 1, 2]);
}

#[test]
fn substring_search_handles_edges() {
    assert!(contains_chars("hello", ""));
    assert!(contains_chars("", ""));
    assert!(!contains_chars("", "a"));
    assert!(contains_chars("hello", "hello"));
    assert!(!contains_chars("hello", "helloo"));
    assert!(contains_chars("ababc", "abc"));
    assert!(contains_chars("h\u{e9}llo", "\u{e9}l"));
    assert!(!contains_chars("h\u{e9}llo", "\u{a9}"));
}
