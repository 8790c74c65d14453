use gridstore::engine::{Column, FilterSpec, SortKey};
use gridstore::record::TEMPLATE_VALUE;
use gridstore::store::{Error, Grid};

const BASE: &str = "This is a sample sentence that might be longer than usual.";

fn no_filter() -> FilterSpec {
    FilterSpec { id: None, value: None, name: None }
}

fn id_filter(v: u64) -> FilterSpec {
    FilterSpec { id: Some(v), value: None, name: None }
}

fn name_filter(p: &str) -> FilterSpec {
    FilterSpec { id: None, value: None, name: Some(p.to_string()) }
}

fn run(g: &mut Grid, f: &FilterSpec, keys: &Vec<SortKey>) -> Vec<u32> {
    let h = g.query_indices(f, keys).expect("store is populated");
    let v = g.result_indices(h).expect("fresh handle is live");
    g.release(h).expect("first release succeeds");
    v
}

#[test]
fn populate_sets_len_and_ids() {
    let mut g = Grid::new();
    g.populate(5);
    assert_eq!(g.len(), 5);
    for i in 0..5usize {
        let r = g.row(i).expect("index below the length");
        assert_eq!(r.id, i as u32);
        assert_eq!(r.value, TEMPLATE_VALUE);
        assert_eq!(r.time_ms, 0);
        assert_eq!(r.name, BASE);
    }
}

#[test]
fn populate_zero_rows() {
    let mut g = Grid::new();
    g.populate(0);
    assert_eq!(g.len(), 0);
    let v = run(&mut g, &no_filter(), &vec![]);
    assert_eq!(v, Vec::<u32>::new());
}

#[test]
fn repopulate_replaces_rows() {
    let mut g = Grid::new();
    g.populate(5);
    g.refresh(77);
    g.populate(2);
    assert_eq!(g.len(), 2);
    let r = g.row(1).expect("index below the length");
    assert_eq!(r.time_ms, 0);
    assert_eq!(r.name, BASE);
}

#[test]
fn row_out_of_range() {
    let mut g = Grid::new();
    g.populate(3);
    assert!(g.row(2).is_ok());
    assert_eq!(g.row(3).unwrap_err(), Error::OutOfRange);
    assert_eq!(g.row(100).unwrap_err(), Error::OutOfRange);
}

#[test]
fn refresh_sets_time_and_text() {
    let mut g = Grid::new();
    g.populate(3);
    g.refresh(1234);
    for i in 0..3usize {
        let r = g.row(i).expect("index below the length");
        assert_eq!(r.time_ms, 1234);
        assert_eq!(
            r.name,
            "This is a sample sentence that might be longer than usual. Current time: 1234"
        );
        assert_eq!(r.id, i as u32);
        assert_eq!(r.value, TEMPLATE_VALUE);
    }
}

#[test]
fn refresh_timestamps_non_decreasing() {
    let mut g = Grid::new();
    g.populate(4);
    let before: Vec<u64> = (0..4).map(|i| g.row(i).unwrap().time_ms).collect();
    g.refresh(500);
    let mid: Vec<u64> = (0..4).map(|i| g.row(i).unwrap().time_ms).collect();
    g.refresh(900);
    let after: Vec<u64> = (0..4).map(|i| g.row(i).unwrap().time_ms).collect();
    for i in 0..4 {
        assert!(before[i] <= mid[i]);
        assert!(mid[i] <= after[i]);
    }
}

#[test]
fn refresh_renders_large_timestamp() {
    let mut g = Grid::new();
    g.populate(1);
    g.refresh(u64::MAX);
    let r = g.row(0).unwrap();
    assert_eq!(
        r.name,
        "This is a sample sentence that might be longer than usual. Current time: 18446744073709551615"
    );
}

#[test]
fn row_access_before_populate_is_rejected() {
    let g = Grid::new();
    assert_eq!(g.row(0).unwrap_err(), Error::NotInitialized);
}

#[test]
fn query_before_populate_is_rejected() {
    let mut g = Grid::new();
    assert_eq!(g.query_indices(&no_filter(), &vec![]).unwrap_err(), Error::NotInitialized);
}

#[test]
fn filter_by_id() {
    let mut g = Grid::new();
    g.populate(5);
    let v = run(&mut g, &id_filter(3), &vec![]);
    assert_eq!(v, vec![3]);
}

#[test]
fn filter_by_missing_id() {
    let mut g = Grid::new();
    g.populate(5);
    let v = run(&mut g, &id_filter(9), &vec![]);
    assert_eq!(v, Vec::<u32>::new());
}

#[test]
fn filter_by_name_substring_case_insensitive() {
    let mut g = Grid::new();
    g.populate(5);
    assert_eq!(run(&mut g, &name_filter("sample"), &vec![]), vec![0, 1, 2, 3, 4]);
    assert_eq!(run(&mut g, &name_filter("SAMPLE"), &vec![]), vec![0, 1, 2, 3, 4]);
    assert_eq!(run(&mut g, &name_filter("zebra"), &vec![]), Vec::<u32>::new());
}

#[test]
fn filter_by_value() {
    let mut g = Grid::new();
    g.populate(4);
    let all = FilterSpec { id: None, value: Some(TEMPLATE_VALUE), name: None };
    assert_eq!(run(&mut g, &all, &vec![]), vec![0, 1, 2, 3]);
    let none = FilterSpec { id: None, value: Some(TEMPLATE_VALUE + 1), name: None };
    assert_eq!(run(&mut g, &none, &vec![]), Vec::<u32>::new());
}

#[test]
fn sort_by_id_descending() {
    let mut g = Grid::new();
    g.populate(5);
    let keys = vec![SortKey { col: Column::Id, asc: false }];
    assert_eq!(run(&mut g, &no_filter(), &keys), vec![4, 3, 2, 1, 0]);
}

#[test]
fn sort_with_all_ties_is_stable() {
    let mut g = Grid::new();
    g.populate(5);
    // All rows share the template value and the same name: every key ties,
    // so the filtered (index) order must be kept, whatever the direction.
    let asc = vec![SortKey { col: Column::Value, asc: true }];
    assert_eq!(run(&mut g, &no_filter(), &asc), vec![0, 1, 2, 3, 4]);
    let desc = vec![SortKey { col: Column::Value, asc: false }];
    assert_eq!(run(&mut g, &no_filter(), &desc), vec![0, 1, 2, 3, 4]);
    let name = vec![SortKey { col: Column::Name, asc: false }];
    assert_eq!(run(&mut g, &no_filter(), &name), vec![0, 1, 2, 3, 4]);
}

#[test]
fn sort_ties_fall_through_to_later_keys() {
    let mut g = Grid::new();
    g.populate(5);
    let keys = vec![
        SortKey { col: Column::Value, asc: true },
        SortKey { col: Column::Id, asc: false },
    ];
    assert_eq!(run(&mut g, &no_filter(), &keys), vec![4, 3, 2, 1, 0]);
}

#[test]
fn filter_is_idempotent_on_repetition() {
    let mut g = Grid::new();
    g.populate(5);
    let f = name_filter("sample");
    let first = run(&mut g, &f, &vec![]);
    let second = run(&mut g, &f, &vec![]);
    assert_eq!(first, second);
    for &i in &first {
        assert!((i as usize) < g.len());
    }
}

#[test]
fn cache_hit_skips_recomputation() {
    let mut g = Grid::new();
    g.populate(5);
    let f = id_filter(2);
    let keys = vec![SortKey { col: Column::Id, asc: true }];
    let first = run(&mut g, &f, &keys);
    let evals = g.eval_count();
    let second = run(&mut g, &f, &keys);
    assert_eq!(first, second);
    assert_eq!(g.eval_count(), evals, "a structurally equal query must not re-scan");
}

#[test]
fn cache_misses_on_any_clause_change() {
    let mut g = Grid::new();
    g.populate(5);
    run(&mut g, &id_filter(2), &vec![]);
    let evals = g.eval_count();
    run(&mut g, &id_filter(3), &vec![]);
    assert_eq!(g.eval_count(), evals + 1, "one changed clause must miss the cache");
    let e2 = g.eval_count();
    run(&mut g, &id_filter(3), &vec![SortKey { col: Column::Id, asc: true }]);
    assert_eq!(g.eval_count(), e2 + 1, "a changed sort key must miss the cache");
}

#[test]
fn refresh_invalidates_cache() {
    let mut g = Grid::new();
    g.populate(5);
    let f = name_filter("sample");
    run(&mut g, &f, &vec![]);
    let evals = g.eval_count();
    g.refresh(10);
    run(&mut g, &f, &vec![]);
    assert_eq!(g.eval_count(), evals + 1, "a refresh between equal queries must recompute");
}

#[test]
fn populate_invalidates_cache() {
    let mut g = Grid::new();
    g.populate(5);
    run(&mut g, &no_filter(), &vec![]);
    let evals = g.eval_count();
    g.populate(5);
    let v = run(&mut g, &no_filter(), &vec![]);
    assert_eq!(g.eval_count(), evals + 1, "a repopulation between equal queries must recompute");
    assert_eq!(v, vec![0, 1, 2, 3, 4]);
}

#[test]
fn release_is_accepted_exactly_once() {
    let mut g = Grid::new();
    g.populate(3);
    let h = g.query_indices(&no_filter(), &vec![]).unwrap();
    assert_eq!(g.result_indices(h).unwrap(), vec![0, 1, 2]);
    assert_eq!(g.release(h), Ok(()));
    assert_eq!(g.release(h).unwrap_err(), Error::OutOfRange);
    assert_eq!(g.result_indices(h).unwrap_err(), Error::OutOfRange);
    // The store itself is untouched by the rejected second release.
    assert_eq!(g.len(), 3);
    assert_eq!(g.row(0).unwrap().id, 0);
}

#[test]
fn unknown_handle_is_rejected() {
    let mut g = Grid::new();
    g.populate(1);
    assert_eq!(g.release(7).unwrap_err(), Error::OutOfRange);
    assert_eq!(g.result_indices(0).unwrap_err(), Error::OutOfRange);
}

#[test]
fn handles_stay_valid_across_new_queries() {
    let mut g = Grid::new();
    g.populate(4);
    let h1 = g.query_indices(&id_filter(1), &vec![]).unwrap();
    let h2 = g.query_indices(&id_filter(2), &vec![]).unwrap();
    assert_ne!(h1, h2);
    assert_eq!(g.result_indices(h1).unwrap(), vec![1]);
    assert_eq!(g.result_indices(h2).unwrap(), vec![2]);
    g.release(h1).unwrap();
    assert_eq!(g.result_indices(h2).unwrap(), vec![2]);
    g.release(h2).unwrap();
}
