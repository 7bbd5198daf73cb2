//! Row selection helpers shared by the tables: first match by key, stable
//! ordering by a key (largest first), and `LIMIT`/`OFFSET` paging.
use vstd::prelude::*;

verus! {

/// Index of the first element of `s` satisfying `pred`, or -1 when none does.
pub open spec fn first_index<V>(s: Seq<V>, pred: spec_fn(V) -> bool) -> int
    decreases s.len(),
{
    if s.len() == 0 {
        -1
    } else if pred(s[0]) {
        0
    } else {
        let r = first_index(s.drop_first(), pred);
        if r < 0 {
            -1
        } else {
            r + 1
        }
    }
}

/// When no element before `k` satisfies `pred`, the first match is at `k` if
/// `s[k]` satisfies it, and there is none if `k` is the end.
pub proof fn lemma_first_index<V>(s: Seq<V>, pred: spec_fn(V) -> bool, k: int)
    requires
        0 <= k <= s.len(),
        forall|m: int| 0 <= m < k ==> !pred(#[trigger] s[m]),
    ensures
        k < s.len() && pred(s[k]) ==> first_index(s, pred) == k,
        k == s.len() ==> first_index(s, pred) == -1,
    decreases k,
{
    if k > 0 {
        let t = s.drop_first();
        assert forall|m: int| 0 <= m < k - 1 implies !pred(#[trigger] t[m]) by {
            assert(t[m] == s[m + 1]);
        }
        lemma_first_index(t, pred, k - 1);
        if k < s.len() {
            assert(t[k - 1] == s[k]);
        }
    } else if s.len() == 0 {
    }
}

/// The first match, when there is one, is a match, and nothing before it is.
pub proof fn lemma_first_index_bounds<V>(s: Seq<V>, pred: spec_fn(V) -> bool)
    ensures
        -1 <= first_index(s, pred) < s.len(),
        first_index(s, pred) >= 0 ==> pred(s[first_index(s, pred)]),
        first_index(s, pred) >= 0 ==> forall|m: int|
            0 <= m < first_index(s, pred) ==> !pred(#[trigger] s[m]),
        first_index(s, pred) < 0 ==> forall|m: int| 0 <= m < s.len() ==> !pred(#[trigger] s[m]),
    decreases s.len(),
{
    if s.len() > 0 {
        let t = s.drop_first();
        lemma_first_index_bounds(t, pred);
        assert forall|m: int| 1 <= m < s.len() implies s[m] == #[trigger] t[m - 1] by {}
        if !pred(s[0]) {
            let r = first_index(t, pred);
            if r >= 0 {
                assert forall|m: int| 0 <= m < r + 1 implies !pred(#[trigger] s[m]) by {
                    if m > 0 {
                        assert(s[m] == t[m - 1]);
                    }
                }
            } else {
                assert forall|m: int| 0 <= m < s.len() implies !pred(#[trigger] s[m]) by {
                    if m > 0 {
                        assert(s[m] == t[m - 1]);
                    }
                }
            }
        }
    }
}

/// `x` placed into `s` (ordered by key, largest first) after every entry
/// whose key is at least as large, so that entries with equal keys keep
/// their order of arrival.
pub open spec fn insert_desc(s: Seq<(i64, usize)>, x: (i64, usize)) -> Seq<(i64, usize)>
    decreases s.len(),
{
    if s.len() == 0 {
        seq![x]
    } else if s[0].0 >= x.0 {
        seq![s[0]] + insert_desc(s.drop_first(), x)
    } else {
        seq![x] + s
    }
}

/// `s` ordered by key, largest first; entries with equal keys stay in the
/// order they have in `s`.
pub open spec fn sort_desc(s: Seq<(i64, usize)>) -> Seq<(i64, usize)>
    decreases s.len(),
{
    if s.len() == 0 {
        s
    } else {
        insert_desc(sort_desc(s.drop_last()), s.last())
    }
}

/// The part of `s` that `LIMIT limit OFFSET offset` selects.
pub open spec fn page<A>(s: Seq<A>, offset: int, limit: int) -> Seq<A> {
    let start = if offset < s.len() { offset } else { s.len() as int };
    let end = if start + limit < s.len() { start + limit } else { s.len() as int };
    s.subrange(start, end)
}

proof fn lemma_insert_at(s: Seq<(i64, usize)>, x: (i64, usize), k: int)
    requires
        0 <= k <= s.len(),
        forall|m: int| 0 <= m < k ==> (#[trigger] s[m]).0 >= x.0,
        k < s.len() ==> s[k].0 < x.0,
    ensures
        insert_desc(s, x) =~= s.take(k).push(x) + s.skip(k),
    decreases k,
{
    if k == 0 {
        assert(s.skip(0) =~= s);
    } else {
        let t = s.drop_first();
        assert forall|m: int| 0 <= m < k - 1 implies (#[trigger] t[m]).0 >= x.0 by {
            assert(t[m] == s[m + 1]);
        }
        lemma_insert_at(t, x, k - 1);
        assert(s[0].0 >= x.0);
        assert(t.take(k - 1).push(x) + t.skip(k - 1) =~= (s.take(k).push(x) + s.skip(k)).drop_first());
    }
}

/// Orders `v` by key, largest first, keeping the order of equal keys.
pub fn sort_desc_exec(v: &Vec<(i64, usize)>) -> (r: Vec<(i64, usize)>)
    ensures
        r@ == sort_desc(v@),
{
    let mut r: Vec<(i64, usize)> = Vec::new();
    let n = v.len();
    let mut i: usize = 0;
    assert(v@.take(0) =~= Seq::<(i64, usize)>::empty());
    while i < n
        invariant
            i <= n,
            n == v.len(),
            r@ == sort_desc(v@.take(i as int)),
        decreases n - i,
    {
        let x = v[i];
        let mut k: usize = 0;
        while k < r.len() && r[k].0 >= x.0
            invariant
                k <= r.len(),
                forall|m: int| 0 <= m < k ==> (#[trigger] r@[m]).0 >= x.0,
            decreases r.len() - k,
        {
            k = k + 1;
        }
        proof {
            lemma_insert_at(r@, x, k as int);
            assert(v@.take(i + 1).drop_last() =~= v@.take(i as int));
            assert(v@.take(i + 1).last() == x);
        }
        r.insert(k, x);
        assert(r@ =~= insert_desc(sort_desc(v@.take(i as int)), x));
        i = i + 1;
    }
    assert(v@.take(n as int) =~= v@);
    r
}

/// The positions `[start, end)` that `LIMIT limit OFFSET offset` selects
/// from a sequence of length `len`.
pub fn page_bounds(len: usize, offset: u64, limit: u64) -> (r: (usize, usize))
    ensures
        r.0 == (if offset < len { offset as int } else { len as int }),
        r.1 == (if r.0 + limit < len { r.0 + limit } else { len as int }),
        r.0 <= r.1 <= len,
{
    let start: usize = if offset < len as u64 { offset as usize } else { len };
    let room: usize = len - start;
    let end: usize = if (limit as u128) < (room as u128) { start + limit as usize } else { len };
    (start, end)
}

/// Sorting keeps the length.
pub proof fn lemma_sort_desc_len(s: Seq<(i64, usize)>)
    ensures
        sort_desc(s).len() == s.len(),
    decreases s.len(),
{
    if s.len() > 0 {
        lemma_sort_desc_len(s.drop_last());
        lemma_insert_desc_len(sort_desc(s.drop_last()), s.last());
    }
}

proof fn lemma_insert_desc_len(s: Seq<(i64, usize)>, x: (i64, usize))
    ensures
        insert_desc(s, x).len() == s.len() + 1,
    decreases s.len(),
{
    if s.len() > 0 && s[0].0 >= x.0 {
        lemma_insert_desc_len(s.drop_first(), x);
    }
}

/// Sorting only rearranges: every entry of the result is an entry of `s`.
pub proof fn lemma_sort_desc_members(s: Seq<(i64, usize)>)
    ensures
        forall|i: int| 0 <= i < sort_desc(s).len() ==> s.contains(#[trigger] sort_desc(s)[i]),
    decreases s.len(),
{
    if s.len() > 0 {
        let p = s.drop_last();
        lemma_sort_desc_members(p);
        lemma_insert_desc_members(sort_desc(p), s.last());
        assert forall|i: int| 0 <= i < sort_desc(s).len() implies s.contains(
            #[trigger] sort_desc(s)[i],
        ) by {
            let e = sort_desc(s)[i];
            if e != s.last() {
                assert(sort_desc(p).contains(e));
                let j = choose|j: int| 0 <= j < sort_desc(p).len() && sort_desc(p)[j] == e;
                assert(p.contains(e));
                let q = choose|q: int| 0 <= q < p.len() && p[q] == e;
                assert(s[q] == e);
            } else {
                assert(s[s.len() - 1] == e);
            }
        }
    }
}

proof fn lemma_insert_desc_members(s: Seq<(i64, usize)>, x: (i64, usize))
    ensures
        forall|i: int|
            0 <= i < insert_desc(s, x).len() ==> #[trigger] insert_desc(s, x)[i] == x || s.contains(
                insert_desc(s, x)[i],
            ),
    decreases s.len(),
{
    lemma_insert_desc_len(s, x);
    if s.len() > 0 && s[0].0 >= x.0 {
        let t = s.drop_first();
        lemma_insert_desc_members(t, x);
        assert forall|i: int| 0 <= i < insert_desc(s, x).len() implies #[trigger] insert_desc(
            s,
            x,
        )[i] == x || s.contains(insert_desc(s, x)[i]) by {
            if i == 0 {
                assert(s[0] == insert_desc(s, x)[0]);
            } else {
                let e = insert_desc(s, x)[i];
                assert(e == insert_desc(t, x)[i - 1]);
                if e != x {
                    let q = choose|q: int| 0 <= q < t.len() && t[q] == e;
                    assert(s[q + 1] == e);
                }
            }
        }
    } else if s.len() > 0 {
        assert forall|i: int| 0 <= i < insert_desc(s, x).len() implies #[trigger] insert_desc(
            s,
            x,
        )[i] == x || s.contains(insert_desc(s, x)[i]) by {
            if i > 0 {
                assert(insert_desc(s, x)[i] == s[i - 1]);
            }
        }
    }
}

/// Each key paired with its position.
pub open spec fn keyed(keys: Seq<i64>) -> Seq<(i64, usize)> {
    Seq::new(keys.len(), |i: int| (keys[i], i as usize))
}

/// The positions of `keys` ordered by key, largest first, equal keys in
/// order of position.
pub open spec fn sorted_positions(keys: Seq<i64>) -> Seq<usize> {
    sort_desc(keyed(keys)).map_values(|e: (i64, usize)| e.1)
}

/// The rows of `rows` that satisfy `pred`, ordered by `key`, largest first;
/// rows with equal keys keep their order.
pub open spec fn select_ordered<V>(
    rows: Seq<V>,
    pred: spec_fn(V) -> bool,
    key: spec_fn(V) -> i64,
) -> Seq<V> {
    let f = rows.filter(pred);
    sorted_positions(f.map_values(key)).map_values(|p: usize| f[p as int])
}

/// Orders the positions of `keys` by key, largest first.
pub fn sort_positions_desc(keys: &Vec<i64>) -> (r: Vec<usize>)
    ensures
        r@ == sorted_positions(keys@),
        forall|k: int| 0 <= k < r.len() ==> r@[k] < keys.len(),
{
    let mut pairs: Vec<(i64, usize)> = Vec::new();
    let mut i: usize = 0;
    while i < keys.len()
        invariant
            i <= keys.len(),
            pairs@ =~= keyed(keys@).take(i as int),
        decreases keys.len() - i,
    {
        pairs.push((keys[i], i));
        i = i + 1;
    }
    assert(pairs@ =~= keyed(keys@));
    let sorted = sort_desc_exec(&pairs);
    proof {
        lemma_sort_desc_len(keyed(keys@));
        lemma_sort_desc_members(keyed(keys@));
    }
    let mut r: Vec<usize> = Vec::new();
    let mut k: usize = 0;
    while k < sorted.len()
        invariant
            k <= sorted.len(),
            sorted@ == sort_desc(keyed(keys@)),
            forall|j: int| 0 <= j < sorted.len() ==> keyed(keys@).contains(#[trigger] sorted@[j]),
            r@ =~= sorted@.take(k as int).map_values(|e: (i64, usize)| e.1),
            forall|j: int| 0 <= j < r.len() ==> r@[j] < keys.len(),
        decreases sorted.len() - k,
    {
        let e = sorted[k];
        proof {
            assert(keyed(keys@).contains(sorted@[k as int]));
            let q = choose|q: int| 0 <= q < keyed(keys@).len() && keyed(keys@)[q] == e;
            assert(e.1 == q as usize);
        }
        r.push(e.1);
        k = k + 1;
    }
    assert(sorted@.take(sorted.len() as int) =~= sorted@);
    r
}

/// The rows of `tv` at the positions `sel`.
pub open spec fn picks<V>(sel: Seq<usize>, tv: Seq<V>) -> Seq<V> {
    sel.map_values(|p: usize| tv[p as int])
}

/// Nothing is selected from no rows.
pub proof fn lemma_select_start<V>(tv: Seq<V>, pred: spec_fn(V) -> bool)
    ensures
        picks(Seq::<usize>::empty(), tv) =~= tv.take(0).filter(pred),
{
    reveal(Seq::filter);
    assert(tv.take(0) =~= Seq::<V>::empty());
}

/// Selecting the positions of matching rows one row at a time.
pub proof fn lemma_select_step<V>(sel: Seq<usize>, tv: Seq<V>, pred: spec_fn(V) -> bool, i: int)
    requires
        picks(sel, tv) == tv.take(i).filter(pred),
        0 <= i < tv.len(),
        i <= usize::MAX,
    ensures
        pred(tv[i]) ==> picks(sel.push(i as usize), tv) == tv.take(i + 1).filter(pred),
        !pred(tv[i]) ==> picks(sel, tv) == tv.take(i + 1).filter(pred),
{
    assert(tv.take(i + 1) =~= tv.take(i).push(tv[i]));
    tv.take(i).lemma_filter_push(tv[i], pred);
    assert(picks(sel.push(i as usize), tv) =~= picks(sel, tv).push(tv[i]));
}

/// Selecting from all rows gives the filtered table.
pub proof fn lemma_select_end<V>(sel: Seq<usize>, tv: Seq<V>, pred: spec_fn(V) -> bool)
    requires
        picks(sel, tv) == tv.take(tv.len() as int).filter(pred),
    ensures
        picks(sel, tv) == tv.filter(pred),
{
    assert(tv.take(tv.len() as int) =~= tv);
}

/// Keys never increase along `s`.
pub open spec fn sorted_desc(s: Seq<(i64, usize)>) -> bool {
    forall|i: int, j: int| 0 <= i < j < s.len() ==> s[i].0 >= s[j].0
}

proof fn lemma_insert_desc_sorted(s: Seq<(i64, usize)>, x: (i64, usize))
    requires
        sorted_desc(s),
    ensures
        sorted_desc(insert_desc(s, x)),
    decreases s.len(),
{
    lemma_insert_desc_len(s, x);
    if s.len() > 0 {
        if s[0].0 >= x.0 {
            let t = s.drop_first();
            assert(sorted_desc(t)) by {
                assert forall|i: int, j: int| 0 <= i < j < t.len() implies t[i].0 >= t[j].0 by {
                    assert(t[i] == s[i + 1]);
                    assert(t[j] == s[j + 1]);
                }
            }
            lemma_insert_desc_sorted(t, x);
            lemma_insert_desc_members(t, x);
            let r = insert_desc(s, x);
            assert forall|i: int, j: int| 0 <= i < j < r.len() implies r[i].0 >= r[j].0 by {
                if i == 0 {
                    let e = insert_desc(t, x)[j - 1];
                    assert(r[j] == e);
                    if e != x {
                        let q = choose|q: int| 0 <= q < t.len() && t[q] == e;
                        assert(s[q + 1] == e);
                    }
                } else {
                    assert(r[i] == insert_desc(t, x)[i - 1]);
                    assert(r[j] == insert_desc(t, x)[j - 1]);
                }
            }
        } else {
            let r = insert_desc(s, x);
            assert forall|i: int, j: int| 0 <= i < j < r.len() implies r[i].0 >= r[j].0 by {
                if i == 0 {
                    assert(r[j] == s[j - 1]);
                } else {
                    assert(r[i] == s[i - 1]);
                    assert(r[j] == s[j - 1]);
                }
            }
        }
    }
}

/// The result of sorting is ordered by key, largest first.
pub proof fn lemma_sort_desc_sorted(s: Seq<(i64, usize)>)
    ensures
        sorted_desc(sort_desc(s)),
    decreases s.len(),
{
    if s.len() > 0 {
        lemma_sort_desc_sorted(s.drop_last());
        lemma_insert_desc_sorted(sort_desc(s.drop_last()), s.last());
    }
}

/// The selected rows satisfy the predicate, come in order of key (largest
/// first), and are as many as the rows that satisfy it.
pub proof fn lemma_select_ordered<V>(rows: Seq<V>, pred: spec_fn(V) -> bool, key: spec_fn(V) -> i64)
    requires
        rows.len() <= usize::MAX,
    ensures
        select_ordered(rows, pred, key).len() == rows.filter(pred).len(),
        forall|i: int| 0 <= i < select_ordered(rows, pred, key).len() ==> pred(
            #[trigger] select_ordered(rows, pred, key)[i],
        ),
        forall|i: int, j: int|
            0 <= i < j < select_ordered(rows, pred, key).len() ==> key(
                #[trigger] select_ordered(rows, pred, key)[i],
            ) >= key(#[trigger] select_ordered(rows, pred, key)[j]),
{
    let f = rows.filter(pred);
    rows.lemma_filter_len(pred);
    let keys = f.map_values(key);
    let sd = sort_desc(keyed(keys));
    lemma_sort_desc_len(keyed(keys));
    lemma_sort_desc_members(keyed(keys));
    lemma_sort_desc_sorted(keyed(keys));
    let o = select_ordered(rows, pred, key);
    assert forall|i: int| 0 <= i < o.len() implies 0 <= sd[i].1 < f.len() && key(#[trigger] o[i]) == sd[i].0 by {
        assert(keyed(keys).contains(sd[i]));
        let q = choose|q: int| 0 <= q < keyed(keys).len() && keyed(keys)[q] == sd[i];
        assert(sd[i].1 == q as usize);
    }
    assert forall|i: int| 0 <= i < o.len() implies pred(#[trigger] o[i]) by {
        assert(keyed(keys).contains(sd[i]));
        let q = choose|q: int| 0 <= q < keyed(keys).len() && keyed(keys)[q] == sd[i];
        rows.lemma_filter_pred(pred, q);
    }
    assert forall|i: int, j: int| 0 <= i < j < o.len() implies key(#[trigger] o[i]) >= key(#[trigger] o[j]) by {
        assert(key(o[i]) == sd[i].0);
        assert(key(o[j]) == sd[j].0);
    }
}


/// No two entries share a position.
pub open spec fn distinct_positions(s: Seq<(i64, usize)>) -> bool {
    forall|i: int, j: int| 0 <= i < s.len() && 0 <= j < s.len() && i != j ==> s[i].1 != s[j].1
}

proof fn lemma_insert_desc_distinct(s: Seq<(i64, usize)>, x: (i64, usize))
    requires
        distinct_positions(s),
        forall|k: int| 0 <= k < s.len() ==> (#[trigger] s[k]).1 != x.1,
    ensures
        distinct_positions(insert_desc(s, x)),
    decreases s.len(),
{
    lemma_insert_desc_len(s, x);
    if s.len() > 0 && s[0].0 >= x.0 {
        let t = s.drop_first();
        assert forall|k: int| 0 <= k < t.len() implies (#[trigger] t[k]).1 != x.1 by {
            assert(t[k] == s[k + 1]);
        }
        assert(distinct_positions(t)) by {
            assert forall|i: int, j: int| 0 <= i < t.len() && 0 <= j < t.len() && i != j implies t[i].1 != t[j].1 by {
                assert(t[i] == s[i + 1]);
                assert(t[j] == s[j + 1]);
            }
        }
        lemma_insert_desc_distinct(t, x);
        lemma_insert_desc_members(t, x);
        let r = insert_desc(s, x);
        let it = insert_desc(t, x);
        assert(r == seq![s[0]] + it);
        assert forall|i: int, j: int| 0 <= i < r.len() && 0 <= j < r.len() && i != j implies r[i].1 != r[j].1 by {
            if i > 0 && j > 0 {
                assert(r[i] == it[i - 1]);
                assert(r[j] == it[j - 1]);
            } else {
                let m = if i == 0 { j } else { i };
                assert(r[m] == it[m - 1]);
                let e = it[m - 1];
                if e != x {
                    assert(t.contains(e));
                    let q = choose|q: int| 0 <= q < t.len() && t[q] == e;
                    assert(s[q + 1] == e);
                }
            }
        }
    }
}

/// Sorting keeps positions distinct.
pub proof fn lemma_sort_desc_distinct(s: Seq<(i64, usize)>)
    requires
        distinct_positions(s),
    ensures
        distinct_positions(sort_desc(s)),
    decreases s.len(),
{
    if s.len() > 0 {
        let p = s.drop_last();
        assert(distinct_positions(p)) by {
            assert forall|i: int, j: int| 0 <= i < p.len() && 0 <= j < p.len() && i != j implies p[i].1 != p[j].1 by {
                assert(p[i] == s[i]);
                assert(p[j] == s[j]);
            }
        }
        lemma_sort_desc_distinct(p);
        lemma_sort_desc_members(p);
        let sp = sort_desc(p);
        assert forall|k: int| 0 <= k < sp.len() implies (#[trigger] sp[k]).1 != s.last().1 by {
            assert(p.contains(sp[k]));
            let q = choose|q: int| 0 <= q < p.len() && p[q] == sp[k];
            assert(s[q] == sp[k]);
        }
        lemma_insert_desc_distinct(sp, s.last());
    }
}

/// Filtering keeps keys unique.
pub proof fn lemma_filter_unique<V, K>(rows: Seq<V>, pred: spec_fn(V) -> bool, id: spec_fn(V) -> K)
    requires
        crate::table::unique_keys(rows, id),
    ensures
        crate::table::unique_keys(rows.filter(pred), id),
    decreases rows.len(),
{
    if rows.len() > 0 {
        let p = rows.drop_last();
        let x = rows.last();
        assert(crate::table::unique_keys(p, id)) by {
            assert forall|i: int, j: int| 0 <= i < p.len() && 0 <= j < p.len() && i != j implies id(p[i]) != id(p[j]) by {
                assert(p[i] == rows[i]);
                assert(p[j] == rows[j]);
            }
        }
        lemma_filter_unique(p, pred, id);
        p.lemma_filter_push(x, pred);
        assert(p.push(x) =~= rows);
        let fp = p.filter(pred);
        if pred(x) {
            let f = fp.push(x);
            assert forall|i: int, j: int| 0 <= i < f.len() && 0 <= j < f.len() && i != j implies id(f[i]) != id(f[j]) by {
                if i == fp.len() || j == fp.len() {
                    let m = if i == fp.len() { j } else { i };
                    assert(fp.contains(fp[m]));
                    p.lemma_filter_contains_rev(pred, fp[m]);
                    let q = choose|q: int| 0 <= q < p.len() && p[q] == fp[m];
                    assert(rows[q] == fp[m]);
                    assert(rows[rows.len() - 1] == x);
                }
            }
        }
    }
}

/// The selected rows keep the rows' keys unique.
pub proof fn lemma_select_ordered_unique<V, K>(
    rows: Seq<V>,
    pred: spec_fn(V) -> bool,
    key: spec_fn(V) -> i64,
    id: spec_fn(V) -> K,
)
    requires
        rows.len() <= usize::MAX,
        crate::table::unique_keys(rows, id),
    ensures
        crate::table::unique_keys(select_ordered(rows, pred, key), id),
{
    let f = rows.filter(pred);
    rows.lemma_filter_len(pred);
    lemma_filter_unique(rows, pred, id);
    let keys = f.map_values(key);
    let kd = keyed(keys);
    assert(distinct_positions(kd));
    lemma_sort_desc_distinct(kd);
    lemma_sort_desc_len(kd);
    lemma_sort_desc_members(kd);
    let sd = sort_desc(kd);
    let o = select_ordered(rows, pred, key);
    assert forall|i: int| 0 <= i < o.len() implies 0 <= #[trigger] sd[i].1 < f.len() && o[i] == f[sd[i].1 as int] by {
        assert(kd.contains(sd[i]));
        let q = choose|q: int| 0 <= q < kd.len() && kd[q] == sd[i];
        assert(sd[i].1 == q as usize);
    }
    assert forall|i: int, j: int| 0 <= i < o.len() && 0 <= j < o.len() && i != j implies id(o[i]) != id(o[j]) by {
        assert(0 <= sd[i].1 < f.len());
        assert(0 <= sd[j].1 < f.len());
        assert(sd[i].1 != sd[j].1);
    }
}


/// Every selected row is one of the rows.
pub proof fn lemma_select_ordered_members<V>(rows: Seq<V>, pred: spec_fn(V) -> bool, key: spec_fn(V) -> i64)
    requires
        rows.len() <= usize::MAX,
    ensures
        forall|i: int|
            0 <= i < select_ordered(rows, pred, key).len() ==> rows.contains(
                #[trigger] select_ordered(rows, pred, key)[i],
            ),
{
    let f = rows.filter(pred);
    rows.lemma_filter_len(pred);
    let keys = f.map_values(key);
    let kd = keyed(keys);
    lemma_sort_desc_len(kd);
    lemma_sort_desc_members(kd);
    let sd = sort_desc(kd);
    let o = select_ordered(rows, pred, key);
    assert forall|i: int| 0 <= i < o.len() implies rows.contains(#[trigger] o[i]) by {
        assert(kd.contains(sd[i]));
        let q = choose|q: int| 0 <= q < kd.len() && kd[q] == sd[i];
        assert(sd[i].1 == q as usize);
        assert(o[i] == f[q]);
        assert(f.contains(f[q]));
        rows.lemma_filter_contains_rev(pred, f[q]);
    }
}

} // verus!



