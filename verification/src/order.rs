//! Ordering rows by a key, and cutting a page out of an ordered listing.
//!
//! A listing is ordered by one key per row. Keys compare as the values of a
//! column do: the absent key first, then numbers by value, then texts in
//! lexicographic order. Rows with equal keys keep the order in which the table
//! holds them, so an ordering is a function of the keys alone.

use vstd::prelude::*;
use vstd::relations::{sorted_by, total_ordering};
use vstd::seq_lib::lemma_sorted_unique;
use crate::text::{text_lt, text_before, text_equal, lemma_text_lt_total, lemma_text_lt_transitive,
    lemma_text_lt_irreflexive};

verus! {

/// The key by which a row is ordered.
pub enum SortKey {
    Null,
    Number(i128),
    Text(Vec<char>),
}

/// The mathematical value of a [`SortKey`].
pub enum KeyView {
    Null,
    Number(int),
    Text(Seq<char>),
}

impl View for SortKey {
    type V = KeyView;

    open spec fn view(&self) -> KeyView {
        match self {
            SortKey::Null => KeyView::Null,
            SortKey::Number(n) => KeyView::Number(*n as int),
            SortKey::Text(t) => KeyView::Text(t@),
        }
    }
}

/// The views of a sequence of keys.
pub open spec fn key_views(keys: Seq<SortKey>) -> Seq<KeyView> {
    keys.map_values(|k: SortKey| k@)
}

/// The strict order on keys.
pub open spec fn key_lt(a: KeyView, b: KeyView) -> bool {
    match a {
        KeyView::Null => !(b is Null),
        KeyView::Number(x) => match b {
            KeyView::Null => false,
            KeyView::Number(y) => x < y,
            KeyView::Text(_) => true,
        },
        KeyView::Text(s) => match b {
            KeyView::Text(t) => text_lt(s, t),
            _ => false,
        },
    }
}

/// The key of position `i`; positions outside the sequence count as absent keys.
pub open spec fn key_at(keys: Seq<KeyView>, i: int) -> KeyView {
    if 0 <= i < keys.len() {
        keys[i]
    } else {
        KeyView::Null
    }
}

/// Position `i` stands at or before position `j` in the listing ordered by
/// `keys`: its key comes first in the chosen direction, or the keys are equal
/// and `i` is the earlier position.
pub open spec fn position_le(keys: Seq<KeyView>, descending: bool, i: int, j: int) -> bool {
    let a = key_at(keys, i);
    let b = key_at(keys, j);
    if a == b {
        i <= j
    } else if descending {
        key_lt(b, a)
    } else {
        key_lt(a, b)
    }
}

/// [`position_le`] as a relation on positions.
pub open spec fn position_order(keys: Seq<KeyView>, descending: bool) -> spec_fn(int, int) -> bool {
    |i: int, j: int| position_le(keys, descending, i, j)
}

/// The positions `0, 1, .., n - 1`.
pub open spec fn positions(n: nat) -> Seq<int> {
    Seq::new(n, |i: int| i)
}

/// The positions of `keys`, ordered by key.
pub open spec fn ordering(keys: Seq<KeyView>, descending: bool) -> Seq<int> {
    positions(keys.len()).sort_by(position_order(keys, descending))
}

/// `rows` in the order of their `keys`.
pub open spec fn arrange<T>(rows: Seq<T>, keys: Seq<KeyView>, descending: bool) -> Seq<T>
    recommends
        rows.len() == keys.len(),
{
    ordering(keys, descending).map_values(|i: int| rows[i])
}

/// Of two different keys exactly one comes before the other.
pub proof fn lemma_key_lt_total(a: KeyView, b: KeyView)
    ensures
        a == b || key_lt(a, b) || key_lt(b, a),
        !(key_lt(a, b) && key_lt(b, a)),
        !key_lt(a, a),
{
    match (a, b) {
        (KeyView::Text(s), KeyView::Text(t)) => {
            lemma_text_lt_total(s, t);
            lemma_text_lt_irreflexive(s);
        },
        (KeyView::Text(s), _) => {
            lemma_text_lt_irreflexive(s);
        },
        _ => {},
    }
}

/// The order on keys is transitive.
pub proof fn lemma_key_lt_transitive(a: KeyView, b: KeyView, c: KeyView)
    requires
        key_lt(a, b),
        key_lt(b, c),
    ensures
        key_lt(a, c),
{
    match (a, b, c) {
        (KeyView::Text(s), KeyView::Text(t), KeyView::Text(u)) => {
            lemma_text_lt_transitive(s, t, u);
        },
        _ => {},
    }
}

/// The order of positions is total: any two positions compare, only equal
/// positions compare both ways, and the relation is transitive.
pub proof fn lemma_position_order_total(keys: Seq<KeyView>, descending: bool)
    ensures
        total_ordering(position_order(keys, descending)),
{
    let r = position_order(keys, descending);
    assert forall|x: int| #[trigger] r(x, x) by {}
    assert forall|x: int, y: int| #[trigger] r(x, y) && #[trigger] r(y, x) implies x == y by {
        lemma_key_lt_total(key_at(keys, x), key_at(keys, y));
    }
    assert forall|x: int, y: int, z: int| #[trigger] r(x, y) && #[trigger] r(y, z) implies r(
        x,
        z,
    ) by {
        let a = key_at(keys, x);
        let b = key_at(keys, y);
        let c = key_at(keys, z);
        lemma_key_lt_total(a, b);
        lemma_key_lt_total(b, c);
        lemma_key_lt_total(a, c);
        if a != b && b != c {
            if descending {
                lemma_key_lt_transitive(c, b, a);
            } else {
                lemma_key_lt_transitive(a, b, c);
            }
        }
    }
    assert forall|x: int, y: int| #[trigger] r(x, y) || #[trigger] r(y, x) by {
        lemma_key_lt_total(key_at(keys, x), key_at(keys, y));
    }
}

/// An ordering is a rearrangement of the positions: it is as long as the keys,
/// holds every position once, and stands in order.
pub proof fn lemma_ordering_permutes(keys: Seq<KeyView>, descending: bool)
    ensures
        ordering(keys, descending).len() == keys.len(),
        ordering(keys, descending).no_duplicates(),
        forall|i: int| 0 <= i < keys.len() <==> #[trigger] ordering(keys, descending).contains(i),
        sorted_by(ordering(keys, descending), position_order(keys, descending)),
{
    broadcast use vstd::seq_lib::group_to_multiset_ensures;

    let base = positions(keys.len());
    let out = ordering(keys, descending);
    lemma_position_order_total(keys, descending);
    base.lemma_sort_by_ensures(position_order(keys, descending));
    assert(base.no_duplicates());
    vstd::seq_lib::to_multiset_len(base);
    vstd::seq_lib::to_multiset_len(out);
    base.lemma_multiset_has_no_duplicates();
    out.lemma_multiset_has_no_duplicates_conv();
    assert forall|i: int| 0 <= i < keys.len() <==> #[trigger] out.contains(i) by {
        if 0 <= i < keys.len() {
            assert(base[i] == i);
            assert(base.contains(i));
        }
        if out.contains(i) {
            assert(base.to_multiset().count(i) > 0);
            assert(base.contains(i));
        }
    }
}

/// An ordering stands in the order of the keys: of two positions in it, the
/// later one never holds a key that belongs before the key of the earlier
/// one, ascending or descending as asked.
pub proof fn lemma_ordering_in_order(keys: Seq<KeyView>, descending: bool, i: int, j: int)
    requires
        0 <= i < j < keys.len(),
    ensures
        ({
            let ord = ordering(keys, descending);
            let first = keys[ord[i]];
            let second = keys[ord[j]];
            &&& 0 <= ord[i] < keys.len()
            &&& 0 <= ord[j] < keys.len()
            &&& if descending {
                !key_lt(first, second)
            } else {
                !key_lt(second, first)
            }
            &&& first == second ==> ord[i] < ord[j]
        }),
{
    let ord = ordering(keys, descending);
    lemma_ordering_permutes(keys, descending);
    assert(ord.contains(ord[i]) && ord.contains(ord[j]));
    assert(position_order(keys, descending)(ord[i], ord[j]));
    lemma_key_lt_total(keys[ord[i]], keys[ord[j]]);
}

/// Whether key `a` comes strictly before key `b`.
pub fn key_before(a: &SortKey, b: &SortKey) -> (r: bool)
    ensures
        r == key_lt(a@, b@),
{
    match a {
        SortKey::Null => match b {
            SortKey::Null => false,
            _ => true,
        },
        SortKey::Number(x) => match b {
            SortKey::Null => false,
            SortKey::Number(y) => *x < *y,
            SortKey::Text(_) => true,
        },
        SortKey::Text(s) => match b {
            SortKey::Text(t) => text_before(s, t),
            _ => false,
        },
    }
}

/// Whether two keys have the same value.
pub fn key_same(a: &SortKey, b: &SortKey) -> (r: bool)
    ensures
        r == (a@ == b@),
{
    match a {
        SortKey::Null => match b {
            SortKey::Null => true,
            _ => false,
        },
        SortKey::Number(x) => match b {
            SortKey::Number(y) => *x == *y,
            _ => false,
        },
        SortKey::Text(s) => match b {
            SortKey::Text(t) => text_equal(s, t),
            _ => false,
        },
    }
}

fn stands_before(keys: &Vec<SortKey>, descending: bool, i: usize, j: usize) -> (r: bool)
    requires
        i < keys.len(),
        j < keys.len(),
    ensures
        r == position_le(key_views(keys@), descending, i as int, j as int),
{
    if key_same(&keys[i], &keys[j]) {
        i <= j
    } else if descending {
        key_before(&keys[j], &keys[i])
    } else {
        key_before(&keys[i], &keys[j])
    }
}

/// The positions held by `order`, as integers.
pub open spec fn position_views(order: Seq<usize>) -> Seq<int> {
    order.map_values(|p: usize| p as int)
}

/// Orders the positions of `keys` by key, ascending or descending; positions
/// with equal keys stay in increasing order.
pub fn sorted_positions(keys: &Vec<SortKey>, descending: bool) -> (order: Vec<usize>)
    ensures
        position_views(order@) == ordering(key_views(keys@), descending),
{
    let ghost kv = key_views(keys@);
    let ghost leq = position_order(kv, descending);
    proof {
        lemma_position_order_total(kv, descending);
    }
    let mut order: Vec<usize> = Vec::new();
    let mut k: usize = 0;
    assert(position_views(order@) =~= positions(0));
    while k < keys.len()
        invariant
            k <= keys.len(),
            kv == key_views(keys@),
            leq == position_order(kv, descending),
            total_ordering(leq),
            order@.len() == k,
            forall|p: int| 0 <= p < order@.len() ==> order@[p] < k,
            sorted_by(position_views(order@), leq),
            position_views(order@).to_multiset() == positions(k as nat).to_multiset(),
        decreases keys.len() - k,
    {
        let mut p: usize = 0;
        while p < order.len() && stands_before(keys, descending, order[p], k)
            invariant
                k < keys.len(),
                kv == key_views(keys@),
                leq == position_order(kv, descending),
                order@.len() == k,
                p <= order@.len(),
                forall|q: int| 0 <= q < order@.len() ==> order@[q] < k,
                forall|q: int| 0 <= q < p ==> leq(#[trigger] position_views(order@)[q], k as int),
            decreases order@.len() - p,
        {
            p += 1;
        }
        let ghost before = position_views(order@);
        order.insert(p, k);
        proof {
            let after = position_views(order@);
            assert(after =~= before.insert(p as int, k as int));
            vstd::seq_lib::to_multiset_insert(before, p as int, k as int);
            assert(positions((k + 1) as nat) =~= positions(k as nat).push(k as int));
            vstd::seq_lib::to_multiset_build(positions(k as nat), k as int);
            assert forall|i: int, j: int| 0 <= i < j < after.len() implies #[trigger] leq(
                after[i],
                after[j],
            ) by {
                if j == p {
                    assert(after[i] == before[i]);
                } else if i == p {
                    assert(after[j] == before[j - 1]);
                    assert(!leq(before[p as int], k as int));
                    assert(leq(k as int, before[p as int]));
                    if j - 1 > p {
                        assert(leq(before[p as int], before[j - 1]));
                    }
                } else {
                    let bi = if i < p { i } else { i - 1 };
                    let bj = if j < p { j } else { j - 1 };
                    assert(after[i] == before[bi] && after[j] == before[bj]);
                    assert(leq(before[bi], before[bj]));
                }
            }
        }
        k += 1;
    }
    proof {
        let base = positions(keys@.len());
        assert(kv.len() == keys@.len());
        base.lemma_sort_by_ensures(leq);
        lemma_sorted_unique(position_views(order@), base.sort_by(leq), leq);
    }
    order
}

/// The first row of the page: `(page - 1) * size` rows are skipped, none where
/// that product is negative, all where it passes the end.
pub open spec fn window_start(len: int, page: int, size: int) -> int {
    let skip = (page - 1) * size;
    if skip <= 0 {
        0
    } else if skip >= len {
        len
    } else {
        skip
    }
}

/// One past the last row of the page: `size` rows from the start, or all the
/// rest where fewer are left or `size` is negative.
pub open spec fn window_end(len: int, page: int, size: int) -> int {
    let start = window_start(len, page, size);
    if size < 0 || start + size >= len {
        len
    } else {
        start + size
    }
}

/// The page of `rows` that `page` and `size` select. Pages are numbered from 1.
/// Without both a page and a size the listing is returned whole.
pub open spec fn page_of<T>(rows: Seq<T>, page: Option<int>, size: Option<int>) -> Seq<T> {
    if page is Some && size is Some {
        rows.subrange(
            window_start(rows.len() as int, page->0, size->0),
            window_end(rows.len() as int, page->0, size->0),
        )
    } else {
        rows
    }
}

/// For a page number from 1 and a size that is not negative, the page holds
/// the rows from position `(page - 1) * size` on, `size` of them or as many
/// as are left: row `i` of the page is row `(page - 1) * size + i` of the
/// listing.
pub proof fn lemma_page_rows<T>(rows: Seq<T>, page: int, size: int)
    requires
        page >= 1,
        size >= 0,
    ensures
        ({
            let skipped = (page - 1) * size;
            let left = if skipped >= rows.len() { 0 } else { rows.len() - skipped };
            let got = page_of(rows, Some(page), Some(size));
            &&& skipped >= 0
            &&& got.len() == (if size <= left { size } else { left })
            &&& forall|i: int| 0 <= i < got.len() ==> #[trigger] got[i] == rows[skipped + i]
        }),
{
    assert((page - 1) * size >= 0) by (nonlinear_arith)
        requires
            page >= 1,
            size >= 0,
    ;
}

/// The first page of a listing that has no more rows than the page size is
/// the whole listing.
pub proof fn lemma_short_listing_fits_first_page<T>(rows: Seq<T>, size: int)
    requires
        rows.len() <= size,
    ensures
        page_of(rows, Some(1), Some(size)) == rows,
{
    assert(page_of(rows, Some(1), Some(size)) =~= rows);
}

proof fn lemma_product_bound(a: int, b: int, m: int)
    requires
        -m <= a <= m,
        -m <= b <= m,
    ensures
        -(m * m) <= a * b <= m * m,
{
    assert(-(m * m) <= a * b <= m * m) by (nonlinear_arith)
        requires
            -m <= a <= m,
            -m <= b <= m,
    ;
}

/// The bounds of the page in a listing of `len` rows: the rows from the first
/// component up to, but not including, the second.
pub fn window(len: usize, page: i64, size: i64) -> (r: (usize, usize))
    ensures
        r.0 == window_start(len as int, page as int, size as int),
        r.1 == window_end(len as int, page as int, size as int),
        r.0 <= r.1 <= len,
{
    let p: i128 = page as i128 - 1;
    let n: i128 = size as i128;
    proof {
        lemma_product_bound(p as int, n as int, 0x8000_0000_0000_0001);
    }
    let skip: i128 = p * n;
    let start: usize = if skip <= 0 {
        0
    } else if skip >= len as i128 {
        len
    } else {
        skip as usize
    };
    let end: usize = if n < 0 || start as i128 + n >= len as i128 {
        len
    } else {
        (start as i128 + n) as usize
    };
    (start, end)
}

} // verus!
