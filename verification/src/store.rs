use crate::engine::{
    evaluate, filter_eq, result_valid, sort_eq, FilterSpec, FilterSpecView, SortKey,
};
use crate::record::{
    has_template_payload, Record, TEMPLATE_A, TEMPLATE_B, TEMPLATE_C, TEMPLATE_D, TEMPLATE_E,
    TEMPLATE_F, TEMPLATE_G, TEMPLATE_H, TEMPLATE_VALUE,
};
use crate::text::{default_name, make_default_name, make_refreshed_name, refreshed_name};
use vstd::prelude::*;

verus! {

/// The ways an operation can fail.
#[derive(PartialEq, Eq, Structural, Clone, Copy, Debug)]
pub enum Error {
    /// A query or row access was made before the store was first populated;
    /// this signals a caller-ordering mistake.
    NotInitialized,
    /// A row index is beyond the current length, or a result handle does not
    /// address a live result buffer.
    OutOfRange,
}

/// The memoized last query: both specifications and the result they produced.
pub struct CacheEntry {
    pub filter: FilterSpec,
    pub sort: Vec<SortKey>,
    pub result: Vec<u32>,
}

/// Whether the cache holds an entry for exactly the specifications
/// `(f, keys)`, compared structurally.
pub open spec fn cache_has(c: Option<CacheEntry>, f: FilterSpecView, keys: Seq<SortKey>) -> bool {
    match c {
        Some(e) => e.filter@ == f && e.sort@ == keys,
        None => false,
    }
}

/// The index sequence a cache entry holds.
pub open spec fn cache_result(c: Option<CacheEntry>) -> Seq<u32> {
    c->Some_0.result@
}

/// A freshly populated row: identifier `i`, the fixed numeric template, a
/// zero timestamp, and the default text attribute.
pub open spec fn is_fresh_row(r: Record, i: int) -> bool {
    &&& r.id == i as u32
    &&& has_template_payload(r)
    &&& r.name@ == default_name()
}

/// How a refresh at time `now_ms` rewrites one row: the identifier and the
/// numeric payload stay, the timestamp becomes `now_ms`, and the text
/// attribute is replaced by a new string that embeds that timestamp.
pub open spec fn refreshed_from(post: Record, pre: Record, now_ms: u64) -> bool {
    &&& post.id == pre.id
    &&& post.value == pre.value
    &&& post.a == pre.a
    &&& post.b == pre.b
    &&& post.c == pre.c
    &&& post.d == pre.d
    &&& post.e == pre.e
    &&& post.f == pre.f
    &&& post.g == pre.g
    &&& post.h == pre.h
    &&& post.time_ms == now_ms
    &&& post.name@ == refreshed_name(now_ms as int)
}

/// `e` advanced by one, stopping at the largest representable count.
pub open spec fn bump(e: u64) -> u64 {
    if e == u64::MAX {
        e
    } else {
        (e + 1) as u64
    }
}

/// The row store, its query engine with the single-slot query cache, and the
/// table of result buffers handed out to the host.
///
/// Result buffers are owned by the store until the host releases them: a
/// query stores its result under a fresh handle, and `release` gives the
/// buffer back exactly once; a second release of the same handle is rejected
/// and changes nothing.
pub struct Grid {
    /// Whether the store has ever been populated.
    pub populated: bool,
    /// The rows, indexed by their stable 0-based row index.
    pub rows: Vec<Record>,
    /// The memoized last query, invalidated by any change to the rows.
    pub cache: Option<CacheEntry>,
    /// How many times the engine recomputed a query (a cache hit does not
    /// count); saturates at the largest representable count.
    pub evals: u64,
    /// The result buffers handed out and not yet released, by handle.
    pub results: Vec<Option<Vec<u32>>>,
}

impl Grid {
    /// Well-formedness: the row count fits a 32-bit index, an unpopulated
    /// store has no rows, and a cache entry is always a valid result of its
    /// own specifications against the current rows.
    pub open spec fn inv(&self) -> bool {
        &&& self.rows@.len() <= u32::MAX as int
        &&& (!self.populated ==> self.rows@.len() == 0)
        &&& match self.cache {
            Some(e) => self.populated && result_valid(self.rows@, e.filter@, e.sort@, e.result@),
            None => true,
        }
    }

    /// An empty, never-populated store.
    pub fn new() -> (g: Grid)
        ensures
            g.inv(),
            !g.populated,
            g.rows@.len() == 0,
            g.cache is None,
            g.evals == 0,
            g.results@.len() == 0,
    {
        Grid { populated: false, rows: Vec::new(), cache: None, evals: 0, results: Vec::new() }
    }

    /// The current row count.
    pub fn len(&self) -> (n: usize)
        ensures
            n == self.rows@.len(),
    {
        self.rows.len()
    }

    /// Read one row. Fails with `NotInitialized` when the store was never
    /// populated, and with `OutOfRange` exactly when the index is beyond the
    /// current length.
    pub fn row(&self, i: usize) -> (r: Result<Record, Error>)
        ensures
            !self.populated ==> r == Err::<Record, Error>(Error::NotInitialized),
            self.populated && (i as int) < self.rows@.len() ==> r == Ok::<Record, Error>(
                self.rows@[i as int],
            ),
            self.populated && (i as int) >= self.rows@.len() ==> r == Err::<Record, Error>(
                Error::OutOfRange,
            ),
    {
        if !self.populated {
            Err(Error::NotInitialized)
        } else if i < self.rows.len() {
            Ok(self.rows[i].clone())
        } else {
            Err(Error::OutOfRange)
        }
    }

    /// (Re)initialize the store with exactly `n` rows: identifiers `0..n-1`,
    /// the fixed numeric template, timestamp zero, and the default text
    /// attribute, each row owning its own text buffer. Any prior rows are
    /// released, and the query cache is invalidated. Result buffers already
    /// handed out stay valid until released.
    pub fn populate(&mut self, n: usize)
        requires
            old(self).inv(),
            n <= u32::MAX as usize,
        ensures
            final(self).inv(),
            final(self).populated,
            final(self).rows@.len() == n as int,
            forall|i: int| 0 <= i < n ==> is_fresh_row(#[trigger] final(self).rows@[i], i),
            final(self).cache is None,
            final(self).evals == old(self).evals,
            final(self).results == old(self).results,
    {
        let mut rows: Vec<Record> = Vec::new();
        let mut i: usize = 0;
        while i < n
            invariant
                i <= n <= u32::MAX as usize,
                rows@.len() == i as int,
                forall|k: int| 0 <= k < i ==> is_fresh_row(#[trigger] rows@[k], k),
            decreases n - i,
        {
            let name = make_default_name();
            rows.push(
                Record {
                    id: i as u32,
                    value: TEMPLATE_VALUE,
                    a: TEMPLATE_A,
                    b: TEMPLATE_B,
                    c: TEMPLATE_C,
                    d: TEMPLATE_D,
                    e: TEMPLATE_E,
                    f: TEMPLATE_F,
                    g: TEMPLATE_G,
                    h: TEMPLATE_H,
                    time_ms: 0,
                    name,
                },
            );
            i = i + 1;
        }
        self.rows = rows;
        self.populated = true;
        self.cache = None;
    }

    /// Update every row in place: set its timestamp to `now_ms` and replace
    /// its text attribute with a new string that embeds that timestamp,
    /// releasing the row's previous text buffer. Invalidates the query cache.
    pub fn refresh(&mut self, now_ms: u64)
        requires
            old(self).inv(),
        ensures
            final(self).inv(),
            final(self).populated == old(self).populated,
            final(self).rows@.len() == old(self).rows@.len(),
            forall|i: int|
                0 <= i < old(self).rows@.len() ==> refreshed_from(
                    #[trigger] final(self).rows@[i],
                    old(self).rows@[i],
                    now_ms,
                ),
            final(self).cache is None,
            final(self).evals == old(self).evals,
            final(self).results == old(self).results,
    {
        let n = self.rows.len();
        let mut i: usize = 0;
        while i < n
            invariant
                i <= n == self.rows@.len(),
                self.populated == old(self).populated,
                self.rows@.len() == old(self).rows@.len(),
                self.cache == old(self).cache,
                self.evals == old(self).evals,
                self.results == old(self).results,
                forall|k: int|
                    0 <= k < i ==> refreshed_from(
                        #[trigger] self.rows@[k],
                        old(self).rows@[k],
                        now_ms,
                    ),
                forall|k: int| i <= k < n ==> self.rows@[k] == old(self).rows@[k],
            decreases n - i,
    {
            let mut rec = self.rows[i].clone();
            rec.time_ms = now_ms;
            rec.name = make_refreshed_name(now_ms);
            self.rows[i] = rec;
            i = i + 1;
        }
        self.cache = None;
    }

    /// After a refresh at a time no earlier than any row's current
    /// timestamp, every row's timestamp is non-decreasing relative to its
    /// previous value.
    pub proof fn lemma_refresh_monotonic(pre: Seq<Record>, post: Seq<Record>, now_ms: u64)
        requires
            pre.len() == post.len(),
            forall|i: int| 0 <= i < pre.len() ==> refreshed_from(#[trigger] post[i], pre[i], now_ms),
            forall|i: int| 0 <= i < pre.len() ==> (#[trigger] pre[i]).time_ms <= now_ms,
        ensures
            forall|i: int| 0 <= i < pre.len() ==> (#[trigger] pre[i]).time_ms <= post[i].time_ms,
    {
    }

    /// How many times the engine recomputed a query so far.
    pub fn eval_count(&self) -> (n: u64)
        ensures
            n == self.evals,
    {
        self.evals
    }

    /// Run a query. Fails with `NotInitialized` exactly when the store was
    /// never populated; otherwise stores the resulting index sequence in a
    /// fresh result slot and returns its handle.
    ///
    /// The single-slot cache makes a repeated query cheap: when the incoming
    /// specifications equal the cached ones structurally, the cached sequence
    /// is returned without recomputation (`evals` stays); otherwise the
    /// engine runs once (`evals` advances) and the new entry evicts the old.
    pub fn query_indices(&mut self, f: &FilterSpec, keys: &Vec<SortKey>) -> (r: Result<
        usize,
        Error,
    >)
        requires
            old(self).inv(),
        ensures
            final(self).inv(),
            final(self).populated == old(self).populated,
            final(self).rows == old(self).rows,
            !old(self).populated ==> r == Err::<usize, Error>(Error::NotInitialized) && *final(self)
                == *old(self),
            old(self).populated ==> {
                &&& r == Ok::<usize, Error>(old(self).results.len())
                &&& final(self).results@.len() == old(self).results@.len() + 1
                &&& forall|k: int|
                    0 <= k < old(self).results@.len() ==> final(self).results@[k] == old(
                        self,
                    ).results@[k]
                &&& final(self).results@.last() is Some
                &&& result_valid(
                    old(self).rows@,
                    f@,
                    keys@,
                    final(self).results@.last()->Some_0@,
                )
                &&& cache_has(final(self).cache, f@, keys@)
                &&& cache_result(final(self).cache) == final(self).results@.last()->Some_0@
                &&& cache_has(old(self).cache, f@, keys@) ==> final(self).evals == old(self).evals
                    && final(self).results@.last()->Some_0@ == cache_result(old(self).cache)
                &&& !cache_has(old(self).cache, f@, keys@) ==> final(self).evals == bump(
                    old(self).evals,
                )
            },
    {
        if !self.populated {
            return Err(Error::NotInitialized);
        }
        let cached: Option<Vec<u32>> = match &self.cache {
            Some(e) => {
                if filter_eq(&e.filter, f) && sort_eq(&e.sort, keys) {
                    Some(copy_indices(&e.result))
                } else {
                    None
                }
            },
            None => None,
        };
        let out: Vec<u32> = match cached {
            Some(v) => v,
            None => {
                self.evals = if self.evals < u64::MAX {
                    self.evals + 1
                } else {
                    self.evals
                };
                evaluate(&self.rows, f, keys)
            },
        };
        let handle = self.results.len();
        self.results.push(Some(copy_indices(&out)));
        self.cache = Some(CacheEntry { filter: f.clone(), sort: copy_keys(keys), result: out });
        Ok(handle)
    }

    /// Read the index sequence a live result handle holds.
    pub fn result_indices(&self, h: usize) -> (r: Result<Vec<u32>, Error>)
        ensures
            (h as int) < self.results@.len() && self.results@[h as int] is Some ==> r is Ok
                && r->Ok_0@ == self.results@[h as int]->Some_0@,
            !((h as int) < self.results@.len() && self.results@[h as int] is Some) ==> r
                == Err::<Vec<u32>, Error>(Error::OutOfRange),
    {
        if h < self.results.len() {
            match &self.results[h] {
                Some(v) => Ok(copy_indices(v)),
                None => Err(Error::OutOfRange),
            }
        } else {
            Err(Error::OutOfRange)
        }
    }

    /// Give the result buffer under handle `h` back to the store. Succeeds
    /// exactly once per handle: a second release, or a handle that never
    /// existed, is rejected with `OutOfRange` and changes nothing.
    pub fn release(&mut self, h: usize) -> (r: Result<(), Error>)
        ensures
            final(self).populated == old(self).populated,
            final(self).rows == old(self).rows,
            final(self).cache == old(self).cache,
            final(self).evals == old(self).evals,
            final(self).results@.len() == old(self).results@.len(),
            old(self).inv() ==> final(self).inv(),
            (h as int) < old(self).results@.len() && old(self).results@[h as int] is Some ==> {
                &&& r == Ok::<(), Error>(())
                &&& final(self).results@[h as int] is None
                &&& forall|k: int|
                    0 <= k < old(self).results@.len() && k != h ==> final(self).results@[k] == old(
                        self,
                    ).results@[k]
            },
            !((h as int) < old(self).results@.len() && old(self).results@[h as int] is Some) ==> r
                == Err::<(), Error>(Error::OutOfRange) && *final(self) == *old(self),
    {
        if h < self.results.len() {
            let live = match &self.results[h] {
                Some(_) => true,
                None => false,
            };
            if live {
                self.results[h] = None;
                Ok(())
            } else {
                Err(Error::OutOfRange)
            }
        } else {
            Err(Error::OutOfRange)
        }
    }
}

/// A copy of an index sequence.
fn copy_indices(v: &Vec<u32>) -> (r: Vec<u32>)
    ensures
        r@ == v@,
{
    let mut r: Vec<u32> = Vec::new();
    let mut i: usize = 0;
    while i < v.len()
        invariant
            i <= v@.len(),
            r@ == v@.subrange(0, i as int),
        decreases v@.len() - i,
    {
        r.push(v[i]);
        proof {
            assert(r@ =~= v@.subrange(0, i + 1));
        }
        i = i + 1;
    }
    proof {
        assert(r@ =~= v@);
    }
    r
}

/// A copy of a sort specification.
fn copy_keys(v: &Vec<SortKey>) -> (r: Vec<SortKey>)
    ensures
        r@ == v@,
{
    let mut r: Vec<SortKey> = Vec::new();
    let mut i: usize = 0;
    while i < v.len()
        invariant
            i <= v@.len(),
            r@ == v@.subrange(0, i as int),
        decreases v@.len() - i,
    {
        r.push(v[i]);
        proof {
            assert(r@ =~= v@.subrange(0, i + 1));
        }
        i = i + 1;
    }
    proof {
        assert(r@ =~= v@);
    }
    r
}

} // verus!
