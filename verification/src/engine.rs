use crate::order::{
    flip, int_cmp, lemma_lex_eq, lemma_lex_flip, lemma_lex_trans, lex_cmp, lex_cmp_chars, Cmp,
};
use crate::record::Record;
use crate::text::{contains_chars, contains_seq, lower_of, to_lower};
use vstd::prelude::*;

verus! {

/// A column a filter clause or sort key can address. Clauses against any
/// other column are ignored and never reach the engine.
#[derive(PartialEq, Eq, Structural, Clone, Copy, Debug)]
pub enum Column {
    Id,
    Value,
    Name,
}

/// One sort key: a column, compared ascending or descending.
#[derive(PartialEq, Eq, Structural, Clone, Copy, Debug)]
pub struct SortKey {
    pub col: Column,
    pub asc: bool,
}

/// A conjunctive per-column filter: a row survives when it satisfies every
/// clause that is present. Numeric clauses ask for exact equality; the name
/// clause asks for a case-insensitive substring match.
pub struct FilterSpec {
    pub id: Option<u64>,
    pub value: Option<u64>,
    pub name: Option<String>,
}

/// The mathematical content of a [`FilterSpec`]: the same clauses with the
/// name pattern abstracted to its character sequence.
#[verifier::ext_equal]
pub ghost struct FilterSpecView {
    pub id: Option<u64>,
    pub value: Option<u64>,
    pub name: Option<Seq<char>>,
}

impl View for FilterSpec {
    type V = FilterSpecView;

    open spec fn view(&self) -> FilterSpecView {
        FilterSpecView {
            id: self.id,
            value: self.value,
            name: match self.name {
                Some(p) => Some(p@),
                None => None,
            },
        }
    }
}

/// The identity filter: no clauses at all.
pub open spec fn empty_filter() -> FilterSpecView {
    FilterSpecView { id: None, value: None, name: None }
}

impl FilterSpec {
    /// The identity filter, which every row passes. A malformed host-supplied
    /// filter specification degrades to this rather than failing.
    pub fn empty() -> (r: FilterSpec)
        ensures
            r@ == empty_filter(),
    {
        let r = FilterSpec { id: None, value: None, name: None };
        proof {
            assert(r@ =~= empty_filter());
        }
        r
    }
}

/// Every row passes the identity filter.
pub proof fn lemma_empty_filter_passes_all(r: Record)
    ensures
        passes(empty_filter(), r),
{
}

impl Clone for FilterSpec {
    fn clone(&self) -> (r: Self)
        ensures
            r@ == self@,
    {
        let r = FilterSpec {
            id: self.id,
            value: self.value,
            name: match &self.name {
                Some(p) => Some(p.clone()),
                None => None,
            },
        };
        proof {
            assert(r@ =~= self@);
        }
        r
    }
}

/// Structural equality of two filter specifications.
pub fn filter_eq(a: &FilterSpec, b: &FilterSpec) -> (r: bool)
    ensures
        r == (a@ == b@),
{
    let ids_eq = match (&a.id, &b.id) {
        (Some(x), Some(y)) => *x == *y,
        (None, None) => true,
        _ => false,
    };
    let values_eq = match (&a.value, &b.value) {
        (Some(x), Some(y)) => *x == *y,
        (None, None) => true,
        _ => false,
    };
    let names_eq = match (&a.name, &b.name) {
        (Some(x), Some(y)) => x.eq(y),
        (None, None) => true,
        _ => false,
    };
    let r = ids_eq && values_eq && names_eq;
    proof {
        if r {
            assert(a@ =~= b@);
        }
    }
    r
}

/// Structural equality of two sort specifications.
pub fn sort_eq(a: &Vec<SortKey>, b: &Vec<SortKey>) -> (r: bool)
    ensures
        r == (a@ == b@),
{
    if a.len() != b.len() {
        return false;
    }
    let mut i: usize = 0;
    while i < a.len()
        invariant
            i <= a@.len() == b@.len(),
            forall|j: int| 0 <= j < i ==> a@[j] == b@[j],
        decreases a@.len() - i,
    {
        if a[i] != b[i] {
            return false;
        }
        i = i + 1;
    }
    proof {
        assert(a@ =~= b@);
    }
    true
}

/// Whether record `r` satisfies every clause of filter `f`: numeric clauses
/// by exact equality, the name clause by case-insensitive substring match.
pub open spec fn passes(f: FilterSpecView, r: Record) -> bool {
    &&& match f.id {
        Some(v) => r.id as u64 == v,
        None => true,
    }
    &&& match f.value {
        Some(v) => r.value == v,
        None => true,
    }
    &&& match f.name {
        Some(p) => contains_seq(lower_of(r.name@), lower_of(p)),
        None => true,
    }
}

/// Whether record `r` survives filter `f`.
pub fn passes_filter(f: &FilterSpec, r: &Record) -> (b: bool)
    ensures
        b == passes(f@, *r),
{
    match &f.id {
        Some(v) => {
            if r.id as u64 != *v {
                return false;
            }
        },
        None => {},
    }
    match &f.value {
        Some(v) => {
            if r.value != *v {
                return false;
            }
        },
        None => {},
    }
    match &f.name {
        Some(p) => {
            let low_name = to_lower(r.name.as_str());
            let low_pat = to_lower(p.as_str());
            if !contains_chars(low_name.as_str(), low_pat.as_str()) {
                return false;
            }
        },
        None => {},
    }
    true
}

/// Three-way comparison of two records under one sort key.
pub open spec fn key_cmp(k: SortKey, x: Record, y: Record) -> Cmp {
    let base = match k.col {
        Column::Id => int_cmp(x.id as int, y.id as int),
        Column::Value => int_cmp(x.value as int, y.value as int),
        Column::Name => lex_cmp(x.name@, y.name@),
    };
    if k.asc {
        base
    } else {
        flip(base)
    }
}

/// Three-way comparison of two records under an ordered list of sort keys:
/// the first key that distinguishes them decides.
pub open spec fn chain_cmp(keys: Seq<SortKey>, x: Record, y: Record) -> Cmp
    decreases keys.len(),
{
    if keys.len() == 0 {
        Cmp::Eq
    } else {
        let c = key_cmp(keys[0], x, y);
        if c != Cmp::Eq {
            c
        } else {
            chain_cmp(keys.drop_first(), x, y)
        }
    }
}

/// Exchanging the records flips a single-key comparison.
pub proof fn lemma_key_flip(k: SortKey, x: Record, y: Record)
    ensures
        key_cmp(k, y, x) == flip(key_cmp(k, x, y)),
{
    match k.col {
        Column::Name => {
            lemma_lex_flip(x.name@, y.name@);
        },
        _ => {},
    }
}

/// A single-key comparison behaves as a total preorder.
pub proof fn lemma_key_trans(k: SortKey, x: Record, y: Record, z: Record)
    ensures
        key_cmp(k, x, y) == Cmp::Lt && key_cmp(k, y, z) == Cmp::Lt ==> key_cmp(k, x, z) == Cmp::Lt,
        key_cmp(k, x, y) == Cmp::Lt && key_cmp(k, y, z) == Cmp::Eq ==> key_cmp(k, x, z) == Cmp::Lt,
        key_cmp(k, x, y) == Cmp::Eq && key_cmp(k, y, z) == Cmp::Lt ==> key_cmp(k, x, z) == Cmp::Lt,
        key_cmp(k, x, y) == Cmp::Eq && key_cmp(k, y, z) == Cmp::Eq ==> key_cmp(k, x, z) == Cmp::Eq,
{
    match k.col {
        Column::Name => {
            let a = x.name@;
            let b = y.name@;
            let c = z.name@;
            lemma_lex_eq(a, b);
            lemma_lex_eq(b, c);
            lemma_lex_eq(a, c);
            lemma_lex_flip(a, b);
            lemma_lex_flip(b, c);
            lemma_lex_flip(a, c);
            if lex_cmp(a, b) == Cmp::Lt && lex_cmp(b, c) == Cmp::Lt {
                lemma_lex_trans(a, b, c);
            }
            if lex_cmp(c, b) == Cmp::Lt && lex_cmp(b, a) == Cmp::Lt {
                lemma_lex_trans(c, b, a);
            }
        },
        _ => {},
    }
}

/// Exchanging the records flips a multi-key comparison.
pub proof fn lemma_chain_flip(keys: Seq<SortKey>, x: Record, y: Record)
    ensures
        chain_cmp(keys, y, x) == flip(chain_cmp(keys, x, y)),
    decreases keys.len(),
{
    if keys.len() == 0 {
    } else {
        lemma_key_flip(keys[0], x, y);
        lemma_chain_flip(keys.drop_first(), x, y);
    }
}

/// A multi-key comparison behaves as a total preorder.
pub proof fn lemma_chain_trans(keys: Seq<SortKey>, x: Record, y: Record, z: Record)
    ensures
        chain_cmp(keys, x, y) == Cmp::Lt && chain_cmp(keys, y, z) == Cmp::Lt ==> chain_cmp(
            keys,
            x,
            z,
        ) == Cmp::Lt,
        chain_cmp(keys, x, y) == Cmp::Lt && chain_cmp(keys, y, z) == Cmp::Eq ==> chain_cmp(
            keys,
            x,
            z,
        ) == Cmp::Lt,
        chain_cmp(keys, x, y) == Cmp::Eq && chain_cmp(keys, y, z) == Cmp::Lt ==> chain_cmp(
            keys,
            x,
            z,
        ) == Cmp::Lt,
        chain_cmp(keys, x, y) == Cmp::Eq && chain_cmp(keys, y, z) == Cmp::Eq ==> chain_cmp(
            keys,
            x,
            z,
        ) == Cmp::Eq,
    decreases keys.len(),
{
    if keys.len() == 0 {
    } else {
        lemma_key_trans(keys[0], x, y, z);
        lemma_chain_trans(keys.drop_first(), x, y, z);
    }
}

/// The strict total order in which surviving row indices are arranged: the
/// sort keys decide in lexicographic precedence, and two rows that tie under
/// every key keep their index order. The index tie-break is exactly the
/// stability of the sort, since the filtered input is scanned in index order.
pub open spec fn idx_before(rows: Seq<Record>, keys: Seq<SortKey>, a: int, b: int) -> bool {
    ||| chain_cmp(keys, rows[a], rows[b]) == Cmp::Lt
    ||| (chain_cmp(keys, rows[a], rows[b]) == Cmp::Eq && a < b)
}

/// `idx_before` is total on distinct indices and irreflexive.
pub proof fn lemma_before_total(rows: Seq<Record>, keys: Seq<SortKey>, a: int, b: int)
    requires
        0 <= a < rows.len(),
        0 <= b < rows.len(),
    ensures
        a != b ==> (idx_before(rows, keys, a, b) <==> !idx_before(rows, keys, b, a)),
        !idx_before(rows, keys, a, a),
{
    lemma_chain_flip(keys, rows[a], rows[b]);
    lemma_chain_flip(keys, rows[a], rows[a]);
}

/// `idx_before` is transitive.
pub proof fn lemma_before_trans(rows: Seq<Record>, keys: Seq<SortKey>, a: int, b: int, c: int)
    requires
        0 <= a < rows.len(),
        0 <= b < rows.len(),
        0 <= c < rows.len(),
        idx_before(rows, keys, a, b),
        idx_before(rows, keys, b, c),
    ensures
        idx_before(rows, keys, a, c),
{
    lemma_chain_trans(keys, rows[a], rows[b], rows[c]);
}

/// Three-way comparison of two records under one sort key.
fn key_cmp_exec(k: &SortKey, x: &Record, y: &Record) -> (c: Cmp)
    ensures
        c == key_cmp(*k, *x, *y),
{
    let base = match k.col {
        Column::Id => {
            if x.id < y.id {
                Cmp::Lt
            } else if x.id == y.id {
                Cmp::Eq
            } else {
                Cmp::Gt
            }
        },
        Column::Value => {
            if x.value < y.value {
                Cmp::Lt
            } else if x.value == y.value {
                Cmp::Eq
            } else {
                Cmp::Gt
            }
        },
        Column::Name => lex_cmp_chars(x.name.as_str(), y.name.as_str()),
    };
    if k.asc {
        base
    } else {
        match base {
            Cmp::Lt => Cmp::Gt,
            Cmp::Eq => Cmp::Eq,
            Cmp::Gt => Cmp::Lt,
        }
    }
}

/// Three-way comparison of two records under a list of sort keys.
fn chain_cmp_exec(keys: &Vec<SortKey>, x: &Record, y: &Record) -> (c: Cmp)
    ensures
        c == chain_cmp(keys@, *x, *y),
{
    let mut i: usize = 0;
    proof {
        assert(keys@.skip(0) =~= keys@);
    }
    while i < keys.len()
        invariant
            i <= keys@.len(),
            chain_cmp(keys@, *x, *y) == chain_cmp(keys@.skip(i as int), *x, *y),
        decreases keys@.len() - i,
    {
        let c = key_cmp_exec(&keys[i], x, y);
        proof {
            assert(keys@.skip(i as int)[0] == keys@[i as int]);
            assert(keys@.skip(i as int).drop_first() =~= keys@.skip(i + 1));
        }
        match c {
            Cmp::Eq => {
                i = i + 1;
            },
            _ => {
                return c;
            },
        }
    }
    Cmp::Eq
}

/// Whether row index `a` is arranged strictly before row index `b`.
fn before_exec(rows: &Vec<Record>, keys: &Vec<SortKey>, a: u32, b: u32) -> (r: bool)
    requires
        (a as int) < rows@.len(),
        (b as int) < rows@.len(),
    ensures
        r == idx_before(rows@, keys@, a as int, b as int),
{
    let c = chain_cmp_exec(keys, &rows[a as usize], &rows[b as usize]);
    match c {
        Cmp::Lt => true,
        Cmp::Eq => a < b,
        Cmp::Gt => false,
    }
}

/// Every element of `s` is a row index of `rows`.
pub open spec fn in_range(rows: Seq<Record>, s: Seq<u32>) -> bool {
    forall|p: int| 0 <= p < s.len() ==> (s[p] as int) < rows.len()
}

/// `s` is arranged by `idx_before`: strictly ascending under the sort keys
/// with index order breaking ties.
pub open spec fn sorted_by(rows: Seq<Record>, keys: Seq<SortKey>, s: Seq<u32>) -> bool {
    forall|p: int, q: int|
        0 <= p < q < s.len() ==> idx_before(rows, keys, s[p] as int, s[q] as int)
}

/// Inserts `x` into the sorted run `out` at its unique position. Every index
/// already present must be smaller than `x`, which is how the engine calls
/// it: scanning rows upward, so that the index tie-break preserves the
/// filtered order of rows that compare equal.
fn sorted_insert(rows: &Vec<Record>, keys: &Vec<SortKey>, out: &mut Vec<u32>, x: u32)
    requires
        (x as int) < rows@.len(),
        in_range(rows@, old(out)@),
        sorted_by(rows@, keys@, old(out)@),
        forall|p: int| 0 <= p < old(out)@.len() ==> old(out)@[p] < x,
    ensures
        final(out)@.len() == old(out)@.len() + 1,
        in_range(rows@, final(out)@),
        sorted_by(rows@, keys@, final(out)@),
        forall|y: u32| final(out)@.contains(y) <==> (old(out)@.contains(y) || y == x),
{
    let ghost orig = out@;
    let mut j: usize = 0;
    loop
        invariant
            out@ == orig,
            j <= orig.len(),
            (x as int) < rows@.len(),
            in_range(rows@, orig),
            sorted_by(rows@, keys@, orig),
            forall|p: int| 0 <= p < orig.len() ==> orig[p] < x,
            forall|p: int| 0 <= p < j ==> idx_before(rows@, keys@, orig[p] as int, x as int),
        ensures
            out@ == orig,
            j <= orig.len(),
            forall|p: int| 0 <= p < j ==> idx_before(rows@, keys@, orig[p] as int, x as int),
            (j as int) < orig.len() ==> !idx_before(rows@, keys@, orig[j as int] as int, x as int),
        decreases orig.len() - j,
    {
        if j == out.len() {
            break;
        }
        if !before_exec(rows, keys, out[j], x) {
            break;
        }
        j = j + 1;
    }
    proof {
        if (j as int) < orig.len() {
            lemma_before_total(rows@, keys@, orig[j as int] as int, x as int);
        }
        assert forall|q: int| j <= q < orig.len() implies idx_before(
            rows@,
            keys@,
            x as int,
            orig[q] as int,
        ) by {
            if q > j {
                lemma_before_trans(
                    rows@,
                    keys@,
                    x as int,
                    orig[j as int] as int,
                    orig[q] as int,
                );
            }
        }
    }
    out.insert(j, x);
    proof {
        orig.insert_ensures(j as int, x);
        let new = out@;
        assert forall|p: int, q: int| 0 <= p < q < new.len() implies idx_before(
            rows@,
            keys@,
            new[p] as int,
            new[q] as int,
        ) by {
            if p < j && q < j {
            } else if p < j && q == j {
            } else if p < j && q > j {
                assert(new[p] == orig[p] && new[q] == orig[q - 1]);
            } else if p == j {
                assert(new[q] == orig[q - 1]);
            } else {
                assert(new[p] == orig[p - 1] && new[q] == orig[q - 1]);
            }
        }
        assert forall|y: u32| new.contains(y) implies (orig.contains(y) || y == x) by {
            let p = choose|p: int| 0 <= p < new.len() && new[p] == y;
            if p < j {
                assert(orig[p] == y);
            } else if p > j {
                assert(orig[p - 1] == y);
            }
        }
        assert forall|y: u32| orig.contains(y) || y == x implies new.contains(y) by {
            if orig.contains(y) {
                let p = choose|p: int| 0 <= p < orig.len() && orig[p] == y;
                if p < j {
                    assert(new[p] == y);
                } else {
                    assert(new[p + 1] == y);
                }
            } else {
                assert(new[j as int] == y);
            }
        }
    }
}

/// A sequence of row indices is a valid query result for `(rows, f, keys)`
/// when it holds exactly the indices of the rows that survive the filter,
/// arranged by the sort keys with ties kept in index (that is, filtered)
/// order. These clauses determine the result sequence uniquely.
pub open spec fn result_valid(
    rows: Seq<Record>,
    f: FilterSpecView,
    keys: Seq<SortKey>,
    s: Seq<u32>,
) -> bool {
    &&& forall|p: int|
        0 <= p < s.len() ==> (s[p] as int) < rows.len() && passes(f, rows[s[p] as int])
    &&& forall|i: int| 0 <= i < rows.len() && passes(f, rows[i]) ==> s.contains(i as u32)
    &&& sorted_by(rows, keys, s)
}

/// The query engine: the ordered sequence of indices of the rows that
/// survive filter `f`, arranged by `keys`. Pure with respect to `rows`.
pub fn evaluate(rows: &Vec<Record>, f: &FilterSpec, keys: &Vec<SortKey>) -> (r: Vec<u32>)
    requires
        rows@.len() <= u32::MAX as int,
    ensures
        result_valid(rows@, f@, keys@, r@),
{
    let mut out: Vec<u32> = Vec::new();
    let n = rows.len();
    let mut i: usize = 0;
    while i < n
        invariant
            n == rows@.len() <= u32::MAX as int,
            i <= n,
            in_range(rows@, out@),
            sorted_by(rows@, keys@, out@),
            forall|p: int|
                0 <= p < out@.len() ==> (out@[p] as int) < i && passes(f@, rows@[out@[p] as int]),
            forall|k: int| 0 <= k < i && passes(f@, rows@[k]) ==> out@.contains(k as u32),
        decreases n - i,
    {
        if passes_filter(f, &rows[i]) {
            let ghost pre = out@;
            sorted_insert(rows, keys, &mut out, i as u32);
            proof {
                assert forall|p: int| 0 <= p < out@.len() implies (out@[p] as int) < i + 1
                    && passes(f@, rows@[out@[p] as int]) by {
                    assert(out@.contains(out@[p]));
                    if out@[p] != (i as u32) {
                        assert(pre.contains(out@[p]));
                        let q = choose|q: int| 0 <= q < pre.len() && pre[q] == out@[p];
                    }
                }
                assert forall|k: int| 0 <= k < i + 1 && passes(f@, rows@[k]) implies out@.contains(
                    k as u32,
                ) by {
                    if k < i {
                        assert(pre.contains(k as u32));
                    }
                }
            }
        }
        i = i + 1;
    }
    out
}

/// Filtering returns a subset of the row indices: every returned index is a
/// valid row index, and the row under it survives the filter.
pub proof fn lemma_filter_subset(
    rows: Seq<Record>,
    f: FilterSpecView,
    keys: Seq<SortKey>,
    s: Seq<u32>,
)
    requires
        result_valid(rows, f, keys, s),
    ensures
        forall|p: int| 0 <= p < s.len() ==> 0 <= (#[trigger] s[p] as int) < rows.len(),
        forall|p: int| 0 <= p < s.len() ==> passes(f, rows[#[trigger] s[p] as int]),
{
}

/// Filtering is idempotent: every index a query returns still passes the
/// same filter, so retaining the surviving indices a second time keeps
/// exactly the same set.
pub proof fn lemma_filter_idempotent(
    rows: Seq<Record>,
    f: FilterSpecView,
    keys: Seq<SortKey>,
    s: Seq<u32>,
)
    requires
        result_valid(rows, f, keys, s),
    ensures
        s.filter(|y: u32| passes(f, rows[y as int])) == s,
{
    lemma_filter_all_kept(rows, f, s);
}

/// Sorting is stable: two surviving rows that tie under every sort key keep
/// their filtered order, which is their row-index order.
pub proof fn lemma_sort_stable(
    rows: Seq<Record>,
    f: FilterSpecView,
    keys: Seq<SortKey>,
    s: Seq<u32>,
    p: int,
    q: int,
)
    requires
        result_valid(rows, f, keys, s),
        0 <= p < q < s.len(),
        chain_cmp(keys, rows[s[p] as int], rows[s[q] as int]) == Cmp::Eq,
    ensures
        s[p] < s[q],
{
    assert(idx_before(rows, keys, s[p] as int, s[q] as int));
}

/// Under the identity sort specification every pair of rows ties, so a query
/// result is simply the surviving indices in ascending row order.
pub proof fn lemma_empty_sort_keeps_index_order(
    rows: Seq<Record>,
    f: FilterSpecView,
    s: Seq<u32>,
)
    requires
        result_valid(rows, f, Seq::<SortKey>::empty(), s),
    ensures
        forall|p: int, q: int| 0 <= p < q < s.len() ==> s[p] < s[q],
{
    assert forall|p: int, q: int| 0 <= p < q < s.len() implies s[p] < s[q] by {
        assert(idx_before(rows, Seq::<SortKey>::empty(), s[p] as int, s[q] as int));
        assert(chain_cmp(Seq::<SortKey>::empty(), rows[s[p] as int], rows[s[q] as int])
            == Cmp::Eq);
    }
}

/// A query result is determined uniquely: any two sequences that are valid
/// results of the same rows, filter and sort keys are equal. In particular a
/// memoized result equals what a recomputation would return.
pub proof fn lemma_result_unique(
    rows: Seq<Record>,
    f: FilterSpecView,
    keys: Seq<SortKey>,
    s1: Seq<u32>,
    s2: Seq<u32>,
)
    requires
        result_valid(rows, f, keys, s1),
        result_valid(rows, f, keys, s2),
    ensures
        s1 == s2,
{
    assert forall|y: u32| s1.contains(y) implies s2.contains(y) by {
        let p = choose|p: int| 0 <= p < s1.len() && s1[p] == y;
        assert(passes(f, rows[y as int]));
        assert(s2.contains((y as int) as u32));
    }
    assert forall|y: u32| s2.contains(y) implies s1.contains(y) by {
        let p = choose|p: int| 0 <= p < s2.len() && s2[p] == y;
        assert(passes(f, rows[y as int]));
        assert(s1.contains((y as int) as u32));
    }
    lemma_sorted_same_members(rows, keys, s1, s2);
}

/// Two runs arranged by the same strict total order and holding the same
/// members are equal.
proof fn lemma_sorted_same_members(rows: Seq<Record>, keys: Seq<SortKey>, s1: Seq<u32>, s2: Seq<u32>)
    requires
        in_range(rows, s1),
        in_range(rows, s2),
        sorted_by(rows, keys, s1),
        sorted_by(rows, keys, s2),
        forall|y: u32| s1.contains(y) <==> s2.contains(y),
    ensures
        s1 == s2,
    decreases s1.len(),
{
    if s1.len() == 0 {
        if s2.len() > 0 {
            assert(s2.contains(s2[0]));
            assert(s1.contains(s2[0]));
        }
        assert(s1 =~= s2);
    } else {
        assert(s1.contains(s1[0]));
        assert(s2.contains(s1[0]));
        let k = choose|k: int| 0 <= k < s2.len() && s2[k] == s1[0];
        assert(s2.contains(s2[0]));
        assert(s1.contains(s2[0]));
        let m = choose|m: int| 0 <= m < s1.len() && s1[m] == s2[0];
        if k > 0 && m > 0 {
            assert(idx_before(rows, keys, s2[0] as int, s1[0] as int));
            assert(idx_before(rows, keys, s1[0] as int, s2[0] as int));
            lemma_before_trans(rows, keys, s1[0] as int, s2[0] as int, s1[0] as int);
            lemma_before_total(rows, keys, s1[0] as int, s1[0] as int);
            assert(false);
        }
        assert(s1[0] == s2[0]);
        let t1 = s1.drop_first();
        let t2 = s2.drop_first();
        assert forall|y: u32| t1.contains(y) implies t2.contains(y) by {
            lemma_drop_first_member(rows, keys, s1, y);
            lemma_member_drop_first(rows, keys, s2, y);
        }
        assert forall|y: u32| t2.contains(y) implies t1.contains(y) by {
            lemma_drop_first_member(rows, keys, s2, y);
            lemma_member_drop_first(rows, keys, s1, y);
        }
        assert forall|p: int, q: int| 0 <= p < q < t1.len() implies idx_before(
            rows,
            keys,
            t1[p] as int,
            t1[q] as int,
        ) by {
            assert(s1[p + 1] == t1[p] && s1[q + 1] == t1[q]);
        }
        assert forall|p: int, q: int| 0 <= p < q < t2.len() implies idx_before(
            rows,
            keys,
            t2[p] as int,
            t2[q] as int,
        ) by {
            assert(s2[p + 1] == t2[p] && s2[q + 1] == t2[q]);
        }
        assert forall|p: int| 0 <= p < t1.len() implies (t1[p] as int) < rows.len() by {
            assert(s1[p + 1] == t1[p]);
        }
        assert forall|p: int| 0 <= p < t2.len() implies (t2[p] as int) < rows.len() by {
            assert(s2[p + 1] == t2[p]);
        }
        lemma_sorted_same_members(rows, keys, t1, t2);
        assert forall|i: int| 0 <= i < s1.len() implies s1[i] == s2[i] by {
            if i > 0 {
                assert(t1[i - 1] == t2[i - 1]);
                assert(s1[i] == t1[i - 1]);
                assert(s2[i] == t2[i - 1]);
            }
        }
        assert(s1 =~= s2);
    }
}

/// An element of the tail of a sorted run is an element other than the head.
proof fn lemma_drop_first_member(rows: Seq<Record>, keys: Seq<SortKey>, s: Seq<u32>, y: u32)
    requires
        in_range(rows, s),
        sorted_by(rows, keys, s),
        s.len() > 0,
        s.drop_first().contains(y),
    ensures
        s.contains(y),
        y != s[0],
{
    let p = choose|p: int| 0 <= p < s.drop_first().len() && s.drop_first()[p] == y;
    assert(s[p + 1] == y);
    assert(idx_before(rows, keys, s[0] as int, s[p + 1] as int));
    lemma_before_total(rows, keys, s[0] as int, s[0] as int);
}

/// An element of a sorted run other than the head is in the tail.
proof fn lemma_member_drop_first(rows: Seq<Record>, keys: Seq<SortKey>, s: Seq<u32>, y: u32)
    requires
        s.len() > 0,
        s.contains(y),
        y != s[0],
    ensures
        s.drop_first().contains(y),
{
    let p = choose|p: int| 0 <= p < s.len() && s[p] == y;
    assert(s.drop_first()[p - 1] == y);
}

proof fn lemma_filter_all_kept(rows: Seq<Record>, f: FilterSpecView, s: Seq<u32>)
    requires
        forall|p: int|
            0 <= p < s.len() ==> (s[p] as int) < rows.len() && passes(f, rows[s[p] as int]),
    ensures
        s.filter(|y: u32| passes(f, rows[y as int])) == s,
    decreases s.len(),
{
    reveal(Seq::filter);
    let pred = |y: u32| passes(f, rows[y as int]);
    if s.len() == 0 {
        assert(s.filter(pred) =~= s);
    } else {
        lemma_filter_all_kept(rows, f, s.drop_last());
        assert(pred(s.last()));
        assert(s.filter(pred) == s.drop_last().filter(pred).push(s.last()));
        assert(s.filter(pred) =~= s);
    }
}

} // verus!
