//! Payments: listing, creation, update, deletion.

use vstd::prelude::*;
use crate::clock::timestamp_now;
use crate::invoices::customer_of;
use crate::listing::{chars_of, holds, key_of_text, lemma_filter_removes_one, lemma_filter_keeps_all,
    lemma_filter_step, lemma_sum_push, listed, opt_chars, opt_int, sum_of, text_key};
use crate::models::{ErrorKind, Invoice, Payment, PaymentView, PaymentsResult,
    PaymentsResultView, views, opt_text, copy_opt_text};
use crate::order::{SortKey, arrange, key_views, page_of};
use crate::store::{Store, StoreView, invoice_ids, payment_ids, find, stored_ids};
use crate::text::contains_folded;

verus! {

/// A stored payment with the customer, invoice, amount, date and notes of
/// `p` put in place of its own.
pub open spec fn replaced_payment(cur: PaymentView, p: PaymentView) -> PaymentView {
    PaymentView {
        id: cur.id,
        customer_id: p.customer_id,
        customer_name: cur.customer_name,
        invoice_id: p.invoice_id,
        invoice_number: cur.invoice_number,
        amount: p.amount,
        date: p.date,
        notes: p.notes,
        created_at: cur.created_at,
    }
}

/// The payment as the store keeps it: under the identifier `id`, created at
/// `now`, without the names that listings fill in.
pub open spec fn payment_as_stored(p: PaymentView, id: i32, now: Seq<char>) -> PaymentView {
    PaymentView {
        id: Some(id),
        customer_id: p.customer_id,
        customer_name: None,
        invoice_id: p.invoice_id,
        invoice_number: None,
        amount: p.amount,
        date: p.date,
        notes: p.notes,
        created_at: Some(now),
    }
}

/// The payments other than the payment `id`.
pub open spec fn other_payment(id: i64) -> spec_fn(PaymentView) -> bool {
    |p: PaymentView| !(p.id is Some && p.id->0 == id)
}

/// What an update of the payment `id` by `p` makes of each stored payment.
pub open spec fn payment_update(id: i64, p: PaymentView) -> spec_fn(PaymentView) -> PaymentView {
    |cur: PaymentView|
        if cur.id is Some && cur.id->0 == id {
            replaced_payment(cur, p)
        } else {
            cur
        }
}

impl StoreView {
    /// The number of the invoice that a payment was made against, where the
    /// payment names an invoice and the store still holds it.
    pub open spec fn number_of_paid_invoice(self, p: PaymentView) -> Option<Seq<char>> {
        if p.invoice_id is Some && self.invoice(p.invoice_id->0) is Some {
            Some(self.invoice(p.invoice_id->0)->0.invoice_number)
        } else {
            None
        }
    }

    /// The payment with the name of its customer and the number of its
    /// invoice, as far as the store holds them.
    pub open spec fn payment_with_names(self, p: PaymentView) -> PaymentView {
        PaymentView {
            customer_name: if self.customer(p.customer_id) is Some {
                Some(self.customer(p.customer_id)->0.name)
            } else {
                None
            },
            invoice_number: self.number_of_paid_invoice(p),
            ..p
        }
    }

    /// Whether a search selects the payment: every payment where there is no
    /// search text, else those whose date, customer's name or invoice's
    /// number holds the text, ASCII case ignored.
    pub open spec fn payment_matches(self, p: PaymentView, search: Option<Seq<char>>) -> bool {
        match search {
            None => true,
            Some(q) => {
                let row = self.payment_with_names(p);
                ||| (row.customer_name is Some && contains_folded(row.customer_name->0, q))
                ||| (row.invoice_number is Some && contains_folded(row.invoice_number->0, q))
                ||| contains_folded(p.date, q)
            },
        }
    }

    /// The payments that a search selects, in the order of the table.
    pub open spec fn payments_found(self, search: Option<Seq<char>>) -> Seq<PaymentView> {
        self.payments.filter(|p: PaymentView| self.payment_matches(p, search))
    }

    /// The listing of payments: those that the search selects, each with its
    /// names, newest first by creation time, cut to the page asked for; and
    /// the sum of the amounts of all that the search selects.
    pub open spec fn payments_listed(
        self,
        search: Option<Seq<char>>,
        page: Option<int>,
        size: Option<int>,
    ) -> PaymentsResultView {
        let found = self.payments_found(search);
        let rows = found.map_values(|p: PaymentView| self.payment_with_names(p));
        let keys = found.map_values(|p: PaymentView| text_key(p.created_at));
        PaymentsResultView {
            data: page_of(arrange(rows, keys, true), page, size),
            sum_amount: sum_of(found.map_values(|p: PaymentView| p.amount)),
        }
    }

    /// Whether the store can take another payment in.
    pub open spec fn has_room_for_payment(self) -> bool {
        self.last_payment_id < i32::MAX
    }

    /// The store with `p` added as its newest payment.
    pub open spec fn with_payment(self, p: PaymentView) -> StoreView {
        StoreView {
            payments: self.payments.push(p),
            last_payment_id: self.last_payment_id + 1,
            ..self
        }
    }

    /// The store with the payment `id` replaced by what `p` says of customer,
    /// invoice, amount, date and notes; every other payment stays as it is.
    pub open spec fn with_payment_replaced(self, id: i64, p: PaymentView) -> StoreView {
        StoreView {
            payments: self.payments.map_values(payment_update(id, p)),
            ..self
        }
    }

    /// The store without the payment `id`.
    pub open spec fn without_payment(self, id: i64) -> StoreView {
        StoreView {
            payments: self.payments.filter(other_payment(id)),
            ..self
        }
    }
}

fn invoice_of(store: &Store, id: Option<i32>) -> (r: Option<&Invoice>)
    ensures
        match r {
            Some(v) => id is Some && store@.invoice(id->0) == Some(v@),
            None => id is None || store@.invoice(id->0) is None,
        },
{
    proof {
        use_type_invariant(store);
        assert(stored_ids(store.invoices@) =~= invoice_ids(store@.invoices));
    }
    match id {
        Some(i) => match find(&store.invoices, i) {
            Some(p) => Some(&store.invoices[p]),
            None => None,
        },
        None => None,
    }
}

fn named(store: &Store, p: &Payment) -> (r: Payment)
    ensures
        r@ == store@.payment_with_names(p@),
{
    let customer = customer_of(store, p.customer_id);
    let invoice = invoice_of(store, p.invoice_id);
    Payment {
        id: p.id,
        customer_id: p.customer_id,
        customer_name: match customer {
            Some(c) => Some(c.name.clone()),
            None => None,
        },
        invoice_id: p.invoice_id,
        invoice_number: match invoice {
            Some(v) => Some(v.invoice_number.clone()),
            None => None,
        },
        amount: p.amount,
        date: p.date.clone(),
        notes: copy_opt_text(&p.notes),
        created_at: copy_opt_text(&p.created_at),
    }
}

fn selects_payment(row: &Payment, needle: &Option<Vec<char>>) -> (r: bool)
    ensures
        r == match opt_chars(*needle) {
            None => true,
            Some(q) => {
                ||| (row@.customer_name is Some && contains_folded(row@.customer_name->0, q))
                ||| (row@.invoice_number is Some && contains_folded(row@.invoice_number->0, q))
                ||| contains_folded(row@.date, q)
            },
        },
{
    match needle {
        None => true,
        Some(q) => {
            let by_name = match &row.customer_name {
                Some(n) => holds(n, q),
                None => false,
            };
            let by_number = match &row.invoice_number {
                Some(n) => holds(n, q),
                None => false,
            };
            by_name || by_number || holds(&row.date, q)
        },
    }
}

/// Lists the payments that `search` selects, each with the name of its
/// customer and the number of its invoice as far as the store holds them,
/// newest first, payments created at the same time in the order of their
/// identifiers. With both `page` and `page_size` the listing is cut to that
/// page, pages counted from 1; with either missing it is returned whole. The
/// sum is taken over every payment selected, whatever the page.
pub fn get_all_payments(
    store: &Store,
    search: Option<String>,
    page: Option<i64>,
    page_size: Option<i64>,
) -> (r: PaymentsResult)
    ensures
        r@ == store@.payments_listed(opt_text(search), opt_int(page), opt_int(page_size)),
{
    let needle = chars_of(&search);
    let ghost sv = store@;
    let ghost all = sv.payments;
    let ghost pred = |p: PaymentView| sv.payment_matches(p, opt_text(search));
    let ghost join = |p: PaymentView| sv.payment_with_names(p);
    let ghost key = |p: PaymentView| text_key(p.created_at);
    let ghost amount = |p: PaymentView| p.amount;
    let mut hits: Vec<Payment> = Vec::new();
    let mut keys: Vec<SortKey> = Vec::new();
    let mut total: i128 = 0;
    let mut k: usize = 0;
    proof {
        reveal(Seq::filter);
        assert(all.take(0).filter(pred) =~= Seq::empty());
    }
    while k < store.payments.len()
        invariant
            k <= store.payments.len(),
            sv == store@,
            all == views(store.payments@),
            pred == |p: PaymentView| sv.payment_matches(p, opt_text(search)),
            join == |p: PaymentView| sv.payment_with_names(p),
            key == |p: PaymentView| text_key(p.created_at),
            amount == |p: PaymentView| p.amount,
            opt_chars(needle) == opt_text(search),
            hits.len() == keys.len(),
            views(hits@) =~= all.take(k as int).filter(pred).map_values(join),
            key_views(keys@) =~= all.take(k as int).filter(pred).map_values(key),
            total == sum_of(all.take(k as int).filter(pred).map_values(amount)),
            -(k * 0x8000_0000_0000_0000) <= total <= k * 0x8000_0000_0000_0000,
        decreases store.payments.len() - k,
    {
        let p = &store.payments[k];
        let row = named(store, p);
        proof {
            lemma_filter_step(all, k as int, pred);
        }
        if selects_payment(&row, &needle) {
            let ghost sel = all.take(k as int).filter(pred);
            let ghost hits_before = hits@;
            let ghost keys_before = keys@;
            let key_k = key_of_text(&p.created_at);
            hits.push(row);
            keys.push(key_k);
            total = total + p.amount as i128;
            proof {
                assert(views(hits@) =~= views(hits_before).push(row@));
                assert(key_views(keys@) =~= key_views(keys_before).push(key_k@));
                assert(sel.push(p@).map_values(join) =~= sel.map_values(join).push(join(p@)));
                assert(sel.push(p@).map_values(key) =~= sel.map_values(key).push(key(p@)));
                assert(sel.push(p@).map_values(amount) =~= sel.map_values(amount).push(amount(p@)));
                lemma_sum_push(sel.map_values(amount), amount(p@));
            }
        }
        k += 1;
    }
    proof {
        assert(all.take(k as int) =~= all);
    }
    let data = listed(&hits, &keys, true, page, page_size);
    PaymentsResult { data, sum_amount: total }
}

/// Adds a payment with the creation time `now`, under the next identifier.
/// The payment may name an invoice or none; the store does not look whether
/// the customer or the invoice exists. Returned is the payment as given, with
/// its identifier and creation time filled in.
///
/// Fails with `QueryFailed`, and leaves the store as it was, only when the
/// identifiers of payments are used up.
pub fn create_payment_at(
    store: &mut Store,
    payment: Payment,
    now: String,
) -> (r: Result<Payment, ErrorKind>)
    ensures
        match r {
            Ok(p) => {
                &&& old(store)@.has_room_for_payment()
                &&& p@ == (PaymentView {
                    id: Some((old(store)@.last_payment_id + 1) as i32),
                    created_at: Some(now@),
                    ..payment@
                })
                &&& final(store)@ == old(store)@.with_payment(
                    payment_as_stored(payment@, (old(store)@.last_payment_id + 1) as i32, now@),
                )
                &&& forall|i: int|
                    0 <= i < old(store)@.payments.len() ==> (#[trigger] old(store)@.payments[i]).id
                        != p.id
            },
            Err(e) => {
                &&& !old(store)@.has_room_for_payment()
                &&& e == ErrorKind::QueryFailed
                &&& final(store)@ == old(store)@
            },
        },
{
    proof {
        use_type_invariant(&*store);
        if store@.last_payment_id < i32::MAX {
            let ids = payment_ids(store@.payments);
            crate::store::lemma_next_id_is_fresh(ids, store@.last_payment_id);
            assert forall|i: int| 0 <= i < store@.payments.len() implies (
            #[trigger] store@.payments[i]).id != Some((store@.last_payment_id + 1) as i32) by {
                assert(ids[i] == store@.payments[i].id);
            }
        }
    }
    if store.last_payment_id == i32::MAX {
        return Err(ErrorKind::QueryFailed);
    }
    let id: i32 = store.last_payment_id + 1;
    let row = Payment {
        id: Some(id),
        customer_id: payment.customer_id,
        customer_name: None,
        invoice_id: payment.invoice_id,
        invoice_number: None,
        amount: payment.amount,
        date: payment.date.clone(),
        notes: copy_opt_text(&payment.notes),
        created_at: Some(now.clone()),
    };
    let out = Payment {
        id: Some(id),
        customer_id: payment.customer_id,
        customer_name: payment.customer_name,
        invoice_id: payment.invoice_id,
        invoice_number: payment.invoice_number,
        amount: payment.amount,
        date: payment.date,
        notes: payment.notes,
        created_at: Some(now),
    };
    let mut rows: Vec<Payment> = Vec::new();
    std::mem::swap(&mut store.payments, &mut rows);
    let ghost before = rows@;
    rows.push(row);
    proof {
        assert(views(rows@) =~= views(before).push(row@));
        assert(payment_ids(views(rows@)) =~= payment_ids(views(before)).push(Some(id)));
    }
    store.last_payment_id = id;
    std::mem::swap(&mut store.payments, &mut rows);
    Ok(out)
}

/// Adds a payment, created now. The creation time is read from the clock;
/// everything else is as in [`create_payment_at`].
pub fn create_payment(store: &mut Store, payment: Payment) -> (r: Result<Payment, ErrorKind>)
    ensures
        match r {
            Ok(p) => {
                &&& old(store)@.has_room_for_payment()
                &&& p.created_at is Some
                &&& p@ == (PaymentView {
                    id: Some((old(store)@.last_payment_id + 1) as i32),
                    created_at: p@.created_at,
                    ..payment@
                })
                &&& final(store)@ == old(store)@.with_payment(
                    payment_as_stored(
                        payment@,
                        (old(store)@.last_payment_id + 1) as i32,
                        p@.created_at->0,
                    ),
                )
                &&& forall|i: int|
                    0 <= i < old(store)@.payments.len() ==> (#[trigger] old(store)@.payments[i]).id
                        != p.id
            },
            Err(e) => {
                &&& !old(store)@.has_room_for_payment()
                &&& e == ErrorKind::QueryFailed
                &&& final(store)@ == old(store)@
            },
        },
{
    let now = timestamp_now();
    create_payment_at(store, payment, now)
}

/// The position of the payment `id` in the table of payments, if the store
/// holds it. No 32-bit identifier equals a number outside their range.
pub fn find_payment(store: &Store, id: i64) -> (r: Option<usize>)
    ensures
        match r {
            Some(p) => {
                &&& p < store@.payments.len()
                &&& store@.payments[p as int].id is Some
                &&& store@.payments[p as int].id->0 == id
                &&& forall|i: int|
                    0 <= i < store@.payments.len() && i != p ==> !((
                    #[trigger] store@.payments[i]).id is Some && store@.payments[i].id->0 == id)
            },
            None => forall|i: int|
                0 <= i < store@.payments.len() ==> !((#[trigger] store@.payments[i]).id is Some
                    && store@.payments[i].id->0 == id),
        },
{
    proof {
        use_type_invariant(store);
        assert(stored_ids(store.payments@) =~= payment_ids(store@.payments));
    }
    let ghost ids = payment_ids(store@.payments);
    if id < -0x8000_0000 || id > 0x7fff_ffff {
        proof {
            assert forall|i: int| 0 <= i < store@.payments.len() implies !((
            #[trigger] store@.payments[i]).id is Some && store@.payments[i].id->0 == id) by {
                assert(ids[i] == store@.payments[i].id);
            }
        }
        return None;
    }
    let r = find(&store.payments, id as i32);
    proof {
        assert forall|i: int| 0 <= i < store@.payments.len() implies ids[i]
            == (#[trigger] store@.payments[i]).id by {}
        match r {
            Some(p) => {
                assert forall|i: int| 0 <= i < store@.payments.len() && i != p implies !((
                #[trigger] store@.payments[i]).id is Some && store@.payments[i].id->0 == id) by {
                    assert(ids[i] == store@.payments[i].id);
                    if i < p {
                        assert(ids[i]->0 < ids[p as int]->0);
                    } else {
                        assert(ids[p as int]->0 < ids[i]->0);
                    }
                }
            },
            None => {
                assert forall|i: int| 0 <= i < store@.payments.len() implies !((
                #[trigger] store@.payments[i]).id is Some && store@.payments[i].id->0 == id) by {
                    assert(ids[i] == store@.payments[i].id);
                    assert(ids[i] != Some(id as i32));
                }
            },
        }
    }
    r
}

/// Replaces customer, invoice, amount, date and notes of the payment `id` by
/// those of `p`; identifier and creation time stay. Nothing changes where no
/// payment has that identifier.
pub fn update_payment(store: &mut Store, id: i64, p: Payment)
    ensures
        final(store)@ == old(store)@.with_payment_replaced(id, p@),
{
    proof {
        use_type_invariant(&*store);
    }
    let ghost before = store@;
    let ghost replace = payment_update(id, p@);
    match find_payment(store, id) {
        Some(at) => {
            let cur = &store.payments[at];
            let row = Payment {
                id: cur.id,
                customer_id: p.customer_id,
                customer_name: copy_opt_text(&cur.customer_name),
                invoice_id: p.invoice_id,
                invoice_number: copy_opt_text(&cur.invoice_number),
                amount: p.amount,
                date: p.date,
                notes: p.notes,
                created_at: copy_opt_text(&cur.created_at),
            };
            let mut rows: Vec<Payment> = Vec::new();
            std::mem::swap(&mut store.payments, &mut rows);
            rows.set(at, row);
            proof {
                assert forall|i: int| 0 <= i < rows@.len() implies #[trigger] views(rows@)[i]
                    == replace(before.payments[i]) by {}
                assert(views(rows@) =~= before.payments.map_values(replace));
                assert(payment_ids(views(rows@)) =~= payment_ids(before.payments));
            }
            std::mem::swap(&mut store.payments, &mut rows);
        },
        None => {
            proof {
                assert(before.payments.map_values(replace) =~= before.payments);
            }
        },
    }
}

/// Deletes the payment `id`. Deleting an identifier that no payment has
/// changes nothing.
pub fn delete_payment(store: &mut Store, id: i64)
    ensures
        final(store)@ == old(store)@.without_payment(id),
{
    proof {
        use_type_invariant(&*store);
    }
    let ghost before = store@;
    let ghost keep = other_payment(id);
    match find_payment(store, id) {
        Some(at) => {
            let mut rows: Vec<Payment> = Vec::new();
            std::mem::swap(&mut store.payments, &mut rows);
            rows.remove(at);
            proof {
                lemma_filter_removes_one(before.payments, keep, at as int);
                assert(views(rows@) =~= before.payments.remove(at as int));
                assert(payment_ids(views(rows@)) =~= payment_ids(before.payments).remove(
                    at as int,
                ));
            }
            std::mem::swap(&mut store.payments, &mut rows);
        },
        None => {
            proof {
                lemma_filter_keeps_all(before.payments, keep);
            }
        },
    }
}

/// A payment that names no invoice, taken in by a store that has an
/// identifier left, gets an identifier that no payment carried before and
/// appears in the listing of all payments under it: with no invoice and no
/// invoice number, with the customer, amount, date and notes as given, with
/// its creation time, and with the name of its customer where the store holds
/// that customer.
pub proof fn lemma_payment_on_account_is_listed(s: StoreView, p: PaymentView, now: Seq<char>)
    requires
        s.wf(),
        s.has_room_for_payment(),
        p.invoice_id is None,
    ensures
        ({
            let id = (s.last_payment_id + 1) as i32;
            let t = s.with_payment(payment_as_stored(p, id, now));
            let rows = t.payments_listed(None, None, None).data;
            let shown = PaymentView {
                id: Some(id),
                customer_name: if s.customer(p.customer_id) is Some {
                    Some(s.customer(p.customer_id)->0.name)
                } else {
                    None
                },
                invoice_id: None,
                invoice_number: None,
                created_at: Some(now),
                ..p
            };
            &&& forall|i: int|
                0 <= i < s.payments.len() ==> (#[trigger] s.payments[i]).id != Some(id)
            &&& rows.len() == s.payments.len() + 1
            &&& rows.contains(shown)
        }),
{
    let id = (s.last_payment_id + 1) as i32;
    let stored = payment_as_stored(p, id, now);
    let t = s.with_payment(stored);
    let pred = |q: PaymentView| t.payment_matches(q, None);
    lemma_filter_keeps_all(t.payments, pred);
    let found = t.payments_found(None);
    let named = found.map_values(|q: PaymentView| t.payment_with_names(q));
    let keys = found.map_values(|q: PaymentView| text_key(q.created_at));
    let ord = crate::order::ordering(keys, true);
    crate::order::lemma_ordering_permutes(keys, true);
    let rows = t.payments_listed(None, None, None).data;
    let m = found.len() - 1;
    assert(found[m] == stored);
    assert(ord.contains(m));
    let j = choose|j: int| 0 <= j < ord.len() && ord[j] == m;
    assert(rows[j] == named[m]);
    let ids = payment_ids(s.payments);
    crate::store::lemma_next_id_is_fresh(ids, s.last_payment_id);
    assert forall|i: int| 0 <= i < s.payments.len() implies (#[trigger] s.payments[i]).id != Some(
        id,
    ) by {
        assert(ids[i] == s.payments[i].id);
    }
}

/// Taking a payment in leaves the contents of the store well formed.
pub proof fn lemma_new_payment_keeps_wf(s: StoreView, p: PaymentView, now: Seq<char>)
    requires
        s.wf(),
        s.has_room_for_payment(),
    ensures
        s.with_payment(payment_as_stored(p, (s.last_payment_id + 1) as i32, now)).wf(),
{
    let row = payment_as_stored(p, (s.last_payment_id + 1) as i32, now);
    let more = s.with_payment(row).payments;
    assert(payment_ids(more) =~= payment_ids(s.payments).push(row.id));
    assert forall|i: int| 0 <= i < more.len() implies crate::store::payment_stored(
        #[trigger] more[i],
    ) by {
        if i < s.payments.len() {
            assert(crate::store::payment_stored(s.payments[i]));
        }
    }
}

/// Replacing the fields of a payment leaves the contents of the store well
/// formed.
pub proof fn lemma_replaced_payment_keeps_wf(s: StoreView, id: i64, p: PaymentView)
    requires
        s.wf(),
    ensures
        s.with_payment_replaced(id, p).wf(),
{
    let after = s.with_payment_replaced(id, p).payments;
    assert(payment_ids(after) =~= payment_ids(s.payments));
    assert forall|i: int| 0 <= i < after.len() implies crate::store::payment_stored(
        #[trigger] after[i],
    ) by {
        assert(crate::store::payment_stored(s.payments[i]));
    }
}

/// Deleting a payment leaves the contents of the store well formed.
pub proof fn lemma_deleted_payment_keeps_wf(s: StoreView, id: i64)
    requires
        s.wf(),
    ensures
        s.without_payment(id).wf(),
{
    let keep = other_payment(id);
    let id_of = |p: PaymentView| p.id;
    assert(s.payments.map_values(id_of) =~= payment_ids(s.payments));
    crate::listing::lemma_filter_keeps_ascent(s.payments, keep, id_of, s.last_payment_id);
    let left = s.without_payment(id).payments;
    assert(payment_ids(left) =~= left.map_values(id_of));
    assert forall|i: int| 0 <= i < left.len() implies crate::store::payment_stored(
        #[trigger] left[i],
    ) by {
        assert(left.contains(left[i]));
        s.payments.lemma_filter_contains_rev(keep, left[i]);
    }
}

} // verus!
