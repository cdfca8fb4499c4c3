//! What the listings share: selecting rows, adding amounts up, and putting
//! the selected rows in order, a page at a time.

use vstd::prelude::*;
use crate::models::{views, opt_text};
use crate::store::ids_ascend;
use crate::text::{to_chars, contains_folded, contains_ignore_case};
use crate::order::{KeyView, SortKey, arrange, key_views, lemma_ordering_permutes, ordering,
    page_of, position_views, sorted_positions, window};

verus! {

/// A record that can be copied with its view intact.
pub trait Record: View + Sized {
    /// A copy of the record.
    fn duplicate(&self) -> (r: Self)
        ensures
            r@ == self@,
    ;
}

/// The view of an optional page number or page size.
pub open spec fn opt_int(n: Option<i64>) -> Option<int> {
    match n {
        Some(v) => Some(v as int),
        None => None,
    }
}

/// The view of an optional 32-bit page number or page size.
pub open spec fn opt_int32(n: Option<i32>) -> Option<int> {
    match n {
        Some(v) => Some(v as int),
        None => None,
    }
}

/// The characters of an optional text.
pub open spec fn opt_chars(t: Option<Vec<char>>) -> Option<Seq<char>> {
    match t {
        Some(v) => Some(v@),
        None => None,
    }
}

/// The characters of an optional text.
pub fn chars_of(t: &Option<String>) -> (r: Option<Vec<char>>)
    ensures
        opt_chars(r) == opt_text(*t),
{
    match t {
        Some(s) => Some(to_chars(s.as_str())),
        None => None,
    }
}

/// The key that orders rows by an optional text: the text, or the absent key.
pub open spec fn text_key(t: Option<Seq<char>>) -> KeyView {
    match t {
        Some(s) => KeyView::Text(s),
        None => KeyView::Null,
    }
}

/// The key of an optional text.
pub fn key_of_text(t: &Option<String>) -> (k: SortKey)
    ensures
        k@ == text_key(opt_text(*t)),
{
    match t {
        Some(s) => SortKey::Text(to_chars(s.as_str())),
        None => SortKey::Null,
    }
}

/// Whether the text `hay` holds `needle`, ASCII case ignored.
pub fn holds(hay: &String, needle: &Vec<char>) -> (r: bool)
    ensures
        r == contains_folded(hay@, needle@),
{
    let chars = to_chars(hay.as_str());
    contains_ignore_case(&chars, needle)
}

/// Whether an optional text is present and holds `needle`, ASCII case ignored.
pub fn opt_holds(hay: &Option<String>, needle: &Vec<char>) -> (r: bool)
    ensures
        r == (opt_text(*hay) is Some && contains_folded(opt_text(*hay)->0, needle@)),
{
    match hay {
        Some(s) => holds(s, needle),
        None => false,
    }
}

/// Keeping every row that passes leaves the table as it is.
pub proof fn lemma_filter_keeps_all<T>(s: Seq<T>, pred: spec_fn(T) -> bool)
    requires
        forall|i: int| 0 <= i < s.len() ==> pred(#[trigger] s[i]),
    ensures
        s.filter(pred) == s,
    decreases s.len(),
{
    reveal(Seq::filter);
    if s.len() > 0 {
        lemma_filter_keeps_all(s.drop_last(), pred);
        assert(s.drop_last().push(s.last()) =~= s);
    } else {
        assert(s.filter(pred) =~= s);
    }
}

/// Selecting rows from a table in ascending order of identifiers leaves a
/// table in ascending order.
pub proof fn lemma_filter_keeps_ascent<T>(
    s: Seq<T>,
    pred: spec_fn(T) -> bool,
    id_of: spec_fn(T) -> Option<i32>,
    last: int,
)
    requires
        ids_ascend(s.map_values(id_of), last),
    ensures
        ids_ascend(s.filter(pred).map_values(id_of), last),
    decreases s.len(),
{
    reveal(Seq::filter);
    let ids = s.map_values(id_of);
    if s.len() > 0 {
        let rest = s.drop_last();
        assert(rest.map_values(id_of) =~= ids.drop_last());
        lemma_filter_keeps_ascent(rest, pred, id_of, last);
        if pred(s.last()) {
            let f = rest.filter(pred);
            let fids = f.map_values(id_of);
            let out = s.filter(pred).map_values(id_of);
            assert(out =~= fids.push(id_of(s.last())));
            assert(ids[s.len() - 1] == id_of(s.last()));
            assert forall|i: int| 0 <= i < f.len() implies (#[trigger] fids[i])->0 < id_of(
                s.last(),
            )->0 by {
                assert(f.contains(f[i]));
                rest.lemma_filter_contains_rev(pred, f[i]);
                let m = choose|m: int| 0 <= m < rest.len() && rest[m] == f[i];
                assert(ids[m] == id_of(f[i]));
                assert(ids[m]->0 < ids[s.len() - 1]->0);
            }
            assert forall|i: int, j: int| 0 <= i < j < out.len() implies (#[trigger] out[i])->0 < (
            #[trigger] out[j])->0 by {
                assert(out[i] == fids[i]);
                if j < f.len() {
                    assert(out[j] == fids[j]);
                }
            }
            assert forall|i: int| 0 <= i < out.len() implies (#[trigger] out[i]) is Some && 1
                <= out[i]->0 <= last by {
                if i < f.len() {
                    assert(out[i] == fids[i]);
                }
            }
        }
    } else {
        assert(s.filter(pred) =~= s);
    }
}

/// Selecting from rows of which none passes leaves nothing.
pub proof fn lemma_filter_none<T>(s: Seq<T>, pred: spec_fn(T) -> bool)
    requires
        forall|i: int| 0 <= i < s.len() ==> !pred(#[trigger] s[i]),
    ensures
        s.filter(pred) == Seq::<T>::empty(),
    decreases s.len(),
{
    reveal(Seq::filter);
    if s.len() > 0 {
        lemma_filter_none(s.drop_last(), pred);
    } else {
        assert(s.filter(pred) =~= Seq::<T>::empty());
    }
}

/// Where one row alone fails, selecting the others removes that row.
pub proof fn lemma_filter_removes_one<T>(s: Seq<T>, pred: spec_fn(T) -> bool, p: int)
    requires
        0 <= p < s.len(),
        !pred(s[p]),
        forall|i: int| 0 <= i < s.len() && i != p ==> pred(#[trigger] s[i]),
    ensures
        s.filter(pred) == s.remove(p),
    decreases s.len(),
{
    reveal(Seq::filter);
    if p == s.len() - 1 {
        lemma_filter_keeps_all(s.drop_last(), pred);
        assert(s.drop_last() =~= s.remove(p));
    } else {
        lemma_filter_removes_one(s.drop_last(), pred, p);
        assert(s.drop_last().remove(p).push(s.last()) =~= s.remove(p));
    }
}

/// An optional 32-bit number, widened.
pub fn widen(n: Option<i32>) -> (r: Option<i64>)
    ensures
        opt_int(r) == opt_int32(n),
{
    match n {
        Some(v) => Some(v as i64),
        None => None,
    }
}

/// The sum of the numbers in `s`.
pub open spec fn sum_of(s: Seq<int>) -> int
    decreases s.len(),
{
    if s.len() == 0 {
        0
    } else {
        sum_of(s.drop_last()) + s.last()
    }
}

/// Adding one number at the end adds it to the sum.
pub proof fn lemma_sum_push(s: Seq<int>, x: int)
    ensures
        sum_of(s.push(x)) == sum_of(s) + x,
{
    assert(s.push(x).drop_last() =~= s);
}

/// The sum of two sequences in a row is the sum of their sums.
pub proof fn lemma_sum_concat(a: Seq<int>, b: Seq<int>)
    ensures
        sum_of(a + b) == sum_of(a) + sum_of(b),
    decreases b.len(),
{
    if b.len() == 0 {
        assert(a + b =~= a);
    } else {
        lemma_sum_concat(a, b.drop_last());
        assert((a + b).drop_last() =~= a + b.drop_last());
    }
}

/// Taking one number out of a sequence takes it off the sum.
pub proof fn lemma_sum_remove(s: Seq<int>, k: int)
    requires
        0 <= k < s.len(),
    ensures
        sum_of(s.remove(k)) + s[k] == sum_of(s),
    decreases s.len(),
{
    if k == s.len() - 1 {
        assert(s.remove(k) =~= s.drop_last());
    } else {
        lemma_sum_remove(s.drop_last(), k);
        assert(s.remove(k).drop_last() =~= s.drop_last().remove(k));
    }
}

/// A sum does not depend on the order of its terms: two sequences that hold
/// the same positions equally often give the same sum of `value` over them.
pub proof fn lemma_sum_rearranged(x: Seq<int>, y: Seq<int>, value: spec_fn(int) -> int)
    requires
        x.to_multiset() == y.to_multiset(),
    ensures
        sum_of(x.map_values(value)) == sum_of(y.map_values(value)),
    decreases x.len(),
{
    broadcast use vstd::seq_lib::group_to_multiset_ensures;

    vstd::seq_lib::to_multiset_len(x);
    vstd::seq_lib::to_multiset_len(y);
    if x.len() == 0 {
        assert(x.map_values(value) =~= y.map_values(value));
    } else {
        let last = x.last();
        assert(x.contains(last));
        assert(y.to_multiset().count(last) > 0);
        assert(y.contains(last));
        let k = choose|k: int| 0 <= k < y.len() && y[k] == last;
        vstd::seq_lib::to_multiset_remove(x, x.len() - 1);
        vstd::seq_lib::to_multiset_remove(y, k);
        assert(x.remove(x.len() - 1) =~= x.drop_last());
        lemma_sum_rearranged(x.drop_last(), y.remove(k), value);
        assert(x.map_values(value).drop_last() =~= x.drop_last().map_values(value));
        assert(y.map_values(value).remove(k) =~= y.remove(k).map_values(value));
        lemma_sum_remove(y.map_values(value), k);
    }
}

/// Adding up the amounts of the rows that pass is adding up, over all rows,
/// the amount of a row that passes and 0 for a row that does not.
pub proof fn lemma_sum_of_selected<T>(
    s: Seq<T>,
    pred: spec_fn(T) -> bool,
    amount: spec_fn(T) -> int,
)
    ensures
        sum_of(s.filter(pred).map_values(amount)) == sum_of(
            s.map_values(|t: T| if pred(t) { amount(t) } else { 0 }),
        ),
    decreases s.len(),
{
    reveal(Seq::filter);
    let counted = |t: T| if pred(t) { amount(t) } else { 0 };
    if s.len() == 0 {
        assert(s.filter(pred).map_values(amount) =~= Seq::empty());
        assert(s.map_values(counted) =~= Seq::empty());
    } else {
        lemma_sum_of_selected(s.drop_last(), pred, amount);
        assert(s.map_values(counted).drop_last() =~= s.drop_last().map_values(counted));
        if pred(s.last()) {
            let kept = s.drop_last().filter(pred);
            assert(s.filter(pred).map_values(amount) =~= kept.map_values(amount).push(
                amount(s.last()),
            ));
            lemma_sum_push(kept.map_values(amount), amount(s.last()));
        }
    }
}

/// Putting rows in the order of their keys does not change the sum of the
/// amounts of the rows that pass.
pub proof fn lemma_sum_of_arranged<T>(
    rows: Seq<T>,
    keys: Seq<KeyView>,
    descending: bool,
    pred: spec_fn(T) -> bool,
    amount: spec_fn(T) -> int,
)
    requires
        rows.len() == keys.len(),
    ensures
        sum_of(arrange(rows, keys, descending).filter(pred).map_values(amount)) == sum_of(
            rows.filter(pred).map_values(amount),
        ),
{
    let counted = |t: T| if pred(t) { amount(t) } else { 0 };
    let at = |i: int| counted(rows[i]);
    let ord = ordering(keys, descending);
    let all = crate::order::positions(keys.len());
    lemma_sum_of_selected(arrange(rows, keys, descending), pred, amount);
    lemma_sum_of_selected(rows, pred, amount);
    crate::order::lemma_position_order_total(keys, descending);
    all.lemma_sort_by_ensures(crate::order::position_order(keys, descending));
    lemma_sum_rearranged(ord, all, at);
    lemma_ordering_permutes(keys, descending);
    assert(arrange(rows, keys, descending).map_values(counted) =~= ord.map_values(at));
    assert(rows.map_values(counted) =~= all.map_values(at));
}

/// Selecting from one more row either adds that row or changes nothing.
pub proof fn lemma_filter_step<T>(s: Seq<T>, k: int, pred: spec_fn(T) -> bool)
    requires
        0 <= k < s.len(),
    ensures
        s.take(k + 1).filter(pred) == if pred(s[k]) {
            s.take(k).filter(pred).push(s[k])
        } else {
            s.take(k).filter(pred)
        },
{
    assert(s.take(k + 1) =~= s.take(k).push(s[k]));
    s.take(k).lemma_filter_push(s[k], pred);
}

/// Puts `rows` in the order of their `keys` and returns the page that `page`
/// and `size` select, or the whole listing where either is missing.
pub fn listed<T: Record>(
    rows: &Vec<T>,
    keys: &Vec<SortKey>,
    descending: bool,
    page: Option<i64>,
    size: Option<i64>,
) -> (out: Vec<T>)
    requires
        rows.len() == keys.len(),
    ensures
        views(out@) == page_of(
            arrange(views(rows@), key_views(keys@), descending),
            opt_int(page),
            opt_int(size),
        ),
{
    let order = sorted_positions(keys, descending);
    let ghost kv = key_views(keys@);
    let ghost all = arrange(views(rows@), kv, descending);
    proof {
        lemma_ordering_permutes(kv, descending);
        assert(all.len() == rows.len());
    }
    let bounds: (usize, usize) = match (page, size) {
        (Some(p), Some(n)) => window(order.len(), p, n),
        _ => (0, order.len()),
    };
    let start: usize = bounds.0;
    let end: usize = bounds.1;
    let mut out: Vec<T> = Vec::new();
    let mut p: usize = start;
    while p < end
        invariant
            start <= p <= end <= order.len(),
            order.len() == rows.len(),
            kv == key_views(keys@),
            kv.len() == rows.len(),
            position_views(order@) == ordering(kv, descending),
            forall|i: int| 0 <= i < kv.len() <==> #[trigger] ordering(kv, descending).contains(i),
            all == arrange(views(rows@), kv, descending),
            views(out@) =~= all.subrange(start as int, p as int),
        decreases end - p,
    {
        let at: usize = order[p];
        proof {
            assert(position_views(order@)[p as int] == at as int);
            assert(ordering(kv, descending).contains(at as int));
        }
        let row = rows[at].duplicate();
        let ghost before = out@;
        out.push(row);
        proof {
            assert(views(out@) =~= views(before).push(row@));
            assert(all[p as int] == views(rows@)[at as int]);
        }
        p += 1;
    }
    proof {
        if page is Some && size is Some {
        } else {
            assert(all.subrange(0, all.len() as int) =~= all);
        }
    }
    out
}

} // verus!
