//! Invoices and their items: listings, lookup, creation, partial update,
//! deletion, and the product names seen on invoice lines.

use vstd::prelude::*;
use crate::clock::timestamp_now;
use crate::listing::{chars_of, holds, key_of_text, lemma_filter_keeps_all, lemma_filter_none,
    lemma_filter_removes_one, lemma_filter_step, lemma_sum_push, listed, opt_chars, opt_int32,
    sum_of, text_key, widen};
use crate::models::{Customer, ErrorKind, Invoice, InvoiceBalance, InvoiceBalanceView, InvoiceItem,
    InvoiceItemView, InvoiceView,
    InvoiceWithCustomer, InvoiceWithCustomerView, InvoicesResponse, InvoicesResponseView,
    PaymentView, Product, ProductView, copy_opt_text, opt_amount, opt_text, views};
use crate::order::{SortKey, KeyView, arrange, key_views, page_of};
use crate::store::{Store, StoreView, customer_ids, invoice_ids, item_ids, payment_ids, position_of,
    find, stored_ids, ids_ascend, lemma_ascending_ids_bound};
use crate::text::{contains_folded, to_chars};

verus! {

/// What is left of `total` after `paid`, a missing `paid` counting as nothing.
pub open spec fn remaining(total: int, paid: Option<int>) -> int {
    total - (if paid is Some { paid->0 } else { 0 })
}

impl StoreView {
    /// The invoice with identifier `id`, if there is one.
    pub open spec fn invoice(self, id: i32) -> Option<InvoiceView> {
        match position_of(invoice_ids(self.invoices), id) {
            Some(p) => Some(self.invoices[p]),
            None => None,
        }
    }

    /// Whether a search selects the invoice: every invoice where there is no
    /// search text, else those whose number or date, or whose customer's
    /// name, holds the text, ASCII case ignored. An invoice whose customer is
    /// gone can still be found by number or date.
    pub open spec fn invoice_matches(self, v: InvoiceView, search: Option<Seq<char>>) -> bool {
        match search {
            None => true,
            Some(q) => {
                ||| contains_folded(v.invoice_number, q)
                ||| (self.customer(v.customer_id) is Some && contains_folded(
                    self.customer(v.customer_id)->0.name,
                    q,
                ))
                ||| contains_folded(v.date, q)
            },
        }
    }

    /// The invoice with the name and phone of its customer, where the store
    /// still holds that customer, and with what is left to pay after the
    /// amount recorded as paid.
    pub open spec fn invoice_with_customer(self, v: InvoiceView) -> InvoiceWithCustomerView {
        let c = self.customer(v.customer_id);
        InvoiceWithCustomerView {
            id: v.id,
            invoice_number: v.invoice_number,
            customer_id: v.customer_id,
            customer_name: if c is Some { Some(c->0.name) } else { None },
            customer_phone: if c is Some { Some(c->0.phone) } else { None },
            date: v.date,
            total: v.total,
            status: v.status,
            paid_amount: v.paid_amount,
            remaining_amount: Some(remaining(v.total, v.paid_amount)),
            created_at: v.created_at,
        }
    }

    /// The invoices that a search selects, in the order of the table.
    pub open spec fn invoices_found(self, search: Option<Seq<char>>) -> Seq<InvoiceView> {
        self.invoices.filter(|v: InvoiceView| self.invoice_matches(v, search))
    }

    /// The listing of invoices: those that the search selects, each with its
    /// customer, newest first by creation time, cut to the page asked for;
    /// and the sum of the totals of all that the search selects.
    pub open spec fn invoices_listed(
        self,
        search: Option<Seq<char>>,
        page: Option<int>,
        size: Option<int>,
    ) -> InvoicesResponseView {
        let found = self.invoices_found(search);
        let rows = found.map_values(|v: InvoiceView| self.invoice_with_customer(v));
        let keys = found.map_values(|v: InvoiceView| text_key(v.created_at));
        InvoicesResponseView {
            data: page_of(arrange(rows, keys, true), page, size),
            total: sum_of(found.map_values(|v: InvoiceView| v.total)),
        }
    }

    /// The sum of the payments made against the invoice `id`.
    pub open spec fn paid_on(self, id: i32) -> int {
        sum_of(
            self.payments.filter(|p: PaymentView| p.invoice_id == Some(id)).map_values(
                |p: PaymentView| p.amount,
            ),
        )
    }

    /// The invoice with its balance: the sum of the payments made against it
    /// as the amount paid, 0 where there are none, and what that sum leaves
    /// of the total. The amount that the store holds as paid is not looked
    /// at.
    pub open spec fn invoice_with_balance(self, v: InvoiceView) -> InvoiceBalanceView {
        let paid = if v.id is Some { self.paid_on(v.id->0) } else { 0 };
        InvoiceBalanceView {
            id: v.id,
            invoice_number: v.invoice_number,
            customer_id: v.customer_id,
            customer_name: None,
            date: v.date,
            total: v.total,
            status: v.status,
            paid_amount: Some(paid),
            remaining_amount: Some(v.total - paid),
            created_at: v.created_at,
        }
    }

    /// The invoices of one customer, each with its balance, latest date first.
    pub open spec fn invoices_of_customer(self, customer_id: i32) -> Seq<InvoiceBalanceView> {
        let own = self.invoices.filter(|v: InvoiceView| v.customer_id == customer_id);
        let rows = own.map_values(|v: InvoiceView| self.invoice_with_balance(v));
        let keys = own.map_values(|v: InvoiceView| KeyView::Text(v.date));
        arrange(rows, keys, true)
    }

    /// The items of the invoice `invoice_id`, in the order of the table.
    pub open spec fn items_of(self, invoice_id: i32) -> Seq<InvoiceItemView> {
        self.items.filter(|t: InvoiceItemView| t.invoice_id == invoice_id)
    }
}

/// The customer with identifier `id`, if the store holds one.
pub(crate) fn customer_of(store: &Store, id: i32) -> (r: Option<&Customer>)
    ensures
        match r {
            Some(c) => store@.customer(id) == Some(c@),
            None => store@.customer(id) is None,
        },
{
    proof {
        use_type_invariant(store);
        assert(stored_ids(store.customers@) =~= customer_ids(store@.customers));
    }
    match find(&store.customers, id) {
        Some(p) => Some(&store.customers[p]),
        None => None,
    }
}

fn selects_invoice(
    v: &Invoice,
    customer: Option<&Customer>,
    needle: &Option<Vec<char>>,
) -> (r: bool)
    ensures
        r == match opt_chars(*needle) {
            None => true,
            Some(q) => {
                ||| contains_folded(v@.invoice_number, q)
                ||| (customer is Some && contains_folded(customer->0@.name, q))
                ||| contains_folded(v@.date, q)
            },
        },
{
    match needle {
        None => true,
        Some(q) => {
            if holds(&v.invoice_number, q) {
                true
            } else {
                let by_name = match customer {
                    Some(c) => holds(&c.name, q),
                    None => false,
                };
                by_name || holds(&v.date, q)
            }
        },
    }
}

pub(crate) fn with_customer(v: &Invoice, customer: Option<&Customer>) -> (r: InvoiceWithCustomer)
    ensures
        r@ == (InvoiceWithCustomerView {
            id: v@.id,
            invoice_number: v@.invoice_number,
            customer_id: v@.customer_id,
            customer_name: if customer is Some { Some(customer->0@.name) } else { None },
            customer_phone: if customer is Some { Some(customer->0@.phone) } else { None },
            date: v@.date,
            total: v@.total,
            status: v@.status,
            paid_amount: v@.paid_amount,
            remaining_amount: Some(remaining(v@.total, v@.paid_amount)),
            created_at: v@.created_at,
        }),
{
    let paid: i128 = match v.paid_amount {
        Some(p) => p as i128,
        None => 0,
    };
    InvoiceWithCustomer {
        id: v.id,
        invoice_number: v.invoice_number.clone(),
        customer_id: v.customer_id,
        customer_name: match customer {
            Some(c) => Some(c.name.clone()),
            None => None,
        },
        customer_phone: match customer {
            Some(c) => Some(c.phone.clone()),
            None => None,
        },
        date: v.date.clone(),
        total: v.total,
        status: copy_opt_text(&v.status),
        paid_amount: v.paid_amount,
        remaining_amount: Some(v.total as i128 - paid),
        created_at: copy_opt_text(&v.created_at),
    }
}

/// Lists the invoices that `search_query` selects, each with its customer's
/// name and phone and with what is left after the amount recorded as paid,
/// newest first, invoices created at the same time in the order of their
/// identifiers. With both `page` and `page_size` the listing is cut to that
/// page, pages counted from 1; with either missing it is returned whole. The
/// total is the sum over every invoice selected, whatever the page.
pub fn get_all_invoices(
    store: &Store,
    search_query: Option<String>,
    page: Option<i32>,
    page_size: Option<i32>,
) -> (r: InvoicesResponse)
    ensures
        r@ == store@.invoices_listed(opt_text(search_query), opt_int32(page), opt_int32(page_size)),
{
    let needle = chars_of(&search_query);
    let ghost sv = store@;
    let ghost all = sv.invoices;
    let ghost pred = |v: InvoiceView| sv.invoice_matches(v, opt_text(search_query));
    let ghost join = |v: InvoiceView| sv.invoice_with_customer(v);
    let ghost key = |v: InvoiceView| text_key(v.created_at);
    let ghost amount = |v: InvoiceView| v.total;
    let mut hits: Vec<InvoiceWithCustomer> = Vec::new();
    let mut keys: Vec<SortKey> = Vec::new();
    let mut total: i128 = 0;
    let mut k: usize = 0;
    proof {
        reveal(Seq::filter);
        assert(all.take(0).filter(pred) =~= Seq::empty());
    }
    while k < store.invoices.len()
        invariant
            k <= store.invoices.len(),
            sv == store@,
            all == views(store.invoices@),
            pred == |v: InvoiceView| sv.invoice_matches(v, opt_text(search_query)),
            join == |v: InvoiceView| sv.invoice_with_customer(v),
            key == |v: InvoiceView| text_key(v.created_at),
            amount == |v: InvoiceView| v.total,
            opt_chars(needle) == opt_text(search_query),
            hits.len() == keys.len(),
            views(hits@) =~= all.take(k as int).filter(pred).map_values(join),
            key_views(keys@) =~= all.take(k as int).filter(pred).map_values(key),
            total == sum_of(all.take(k as int).filter(pred).map_values(amount)),
            -(k * 0x8000_0000_0000_0000) <= total <= k * 0x8000_0000_0000_0000,
        decreases store.invoices.len() - k,
    {
        let v = &store.invoices[k];
        let customer = customer_of(store, v.customer_id);
        proof {
            lemma_filter_step(all, k as int, pred);
        }
        if selects_invoice(v, customer, &needle) {
            let ghost sel = all.take(k as int).filter(pred);
            let ghost hits_before = hits@;
            let ghost keys_before = keys@;
            let key_k = key_of_text(&v.created_at);
            let row = with_customer(v, customer);
            hits.push(row);
            keys.push(key_k);
            total = total + v.total as i128;
            proof {
                assert(views(hits@) =~= views(hits_before).push(row@));
                assert(key_views(keys@) =~= key_views(keys_before).push(key_k@));
                assert(sel.push(v@).map_values(join) =~= sel.map_values(join).push(join(v@)));
                assert(sel.push(v@).map_values(key) =~= sel.map_values(key).push(key(v@)));
                assert(sel.push(v@).map_values(amount) =~= sel.map_values(amount).push(amount(v@)));
                lemma_sum_push(sel.map_values(amount), amount(v@));
            }
        }
        k += 1;
    }
    proof {
        assert(all.take(k as int) =~= all);
    }
    let data = listed(&hits, &keys, true, widen(page), widen(page_size));
    InvoicesResponse { data, total }
}

/// The invoice with identifier `id` as the store holds it, or `None` where it
/// holds none.
pub fn get_invoice_by_id(store: &Store, id: i32) -> (r: Option<Invoice>)
    ensures
        match r {
            Some(v) => store@.invoice(id) == Some(v@),
            None => store@.invoice(id) is None,
        },
{
    proof {
        use_type_invariant(store);
        assert(stored_ids(store.invoices@) =~= invoice_ids(store@.invoices));
    }
    match find(&store.invoices, id) {
        Some(p) => Some(store.invoices[p].clone()),
        None => None,
    }
}

/// The sum of the payments made against the invoice `id`.
pub(crate) fn paid_on(store: &Store, id: i32) -> (r: i128)
    ensures
        r == store@.paid_on(id),
        -0x4000_0000_0000_0000_0000_0000 <= r <= 0x4000_0000_0000_0000_0000_0000,
{
    let ghost all = store@.payments;
    let ghost pred = |p: PaymentView| p.invoice_id == Some(id);
    let ghost amount = |p: PaymentView| p.amount;
    let mut total: i128 = 0;
    let mut k: usize = 0;
    proof {
        use_type_invariant(store);
        reveal(Seq::filter);
        assert(all.take(0).filter(pred) =~= Seq::empty());
        if all.len() > 0 {
            lemma_ascending_ids_bound(payment_ids(all), store@.last_payment_id, 0);
        }
    }
    while k < store.payments.len()
        invariant
            k <= store.payments.len() <= 0x7fff_ffff,
            all == views(store.payments@),
            pred == |p: PaymentView| p.invoice_id == Some(id),
            amount == |p: PaymentView| p.amount,
            total == sum_of(all.take(k as int).filter(pred).map_values(amount)),
            -(k * 0x8000_0000_0000_0000) <= total <= k * 0x8000_0000_0000_0000,
        decreases store.payments.len() - k,
    {
        let p = &store.payments[k];
        proof {
            lemma_filter_step(all, k as int, pred);
        }
        if p.invoice_id == Some(id) {
            let ghost sel = all.take(k as int).filter(pred);
            total = total + p.amount as i128;
            proof {
                assert(sel.push(p@).map_values(amount) =~= sel.map_values(amount).push(amount(p@)));
                lemma_sum_push(sel.map_values(amount), amount(p@));
            }
        }
        k += 1;
    }
    proof {
        assert(all.take(k as int) =~= all);
    }
    total
}

/// Lists the invoices of the customer `customer_id`, latest date first,
/// invoices of one date in the order of their identifiers. Each comes with
/// the sum of the payments made against it as the amount paid, 0 where there
/// are none, and with what that sum leaves of its total. Payments that name
/// no invoice count for neither.
pub fn get_invoices_by_customer_id(store: &Store, customer_id: i32) -> (r: Vec<InvoiceBalance>)
    ensures
        views(r@) == store@.invoices_of_customer(customer_id),
{
    let ghost sv = store@;
    let ghost all = sv.invoices;
    let ghost pred = |v: InvoiceView| v.customer_id == customer_id;
    let ghost balance = |v: InvoiceView| sv.invoice_with_balance(v);
    let ghost key = |v: InvoiceView| KeyView::Text(v.date);
    let mut hits: Vec<InvoiceBalance> = Vec::new();
    let mut keys: Vec<SortKey> = Vec::new();
    let mut k: usize = 0;
    proof {
        reveal(Seq::filter);
        assert(all.take(0).filter(pred) =~= Seq::empty());
    }
    while k < store.invoices.len()
        invariant
            k <= store.invoices.len(),
            sv == store@,
            all == views(store.invoices@),
            pred == |v: InvoiceView| v.customer_id == customer_id,
            balance == |v: InvoiceView| sv.invoice_with_balance(v),
            key == |v: InvoiceView| KeyView::Text(v.date),
            hits.len() == keys.len(),
            views(hits@) =~= all.take(k as int).filter(pred).map_values(balance),
            key_views(keys@) =~= all.take(k as int).filter(pred).map_values(key),
        decreases store.invoices.len() - k,
    {
        let v = &store.invoices[k];
        proof {
            lemma_filter_step(all, k as int, pred);
        }
        if v.customer_id == customer_id {
            let ghost sel = all.take(k as int).filter(pred);
            let ghost hits_before = hits@;
            let ghost keys_before = keys@;
            let paid: i128 = match v.id {
                Some(id) => paid_on(store, id),
                None => 0,
            };
            let row = InvoiceBalance {
                id: v.id,
                invoice_number: v.invoice_number.clone(),
                customer_id: v.customer_id,
                customer_name: None,
                date: v.date.clone(),
                total: v.total,
                status: copy_opt_text(&v.status),
                paid_amount: Some(paid),
                remaining_amount: Some(v.total as i128 - paid),
                created_at: copy_opt_text(&v.created_at),
            };
            let key_k = SortKey::Text(to_chars(v.date.as_str()));
            hits.push(row);
            keys.push(key_k);
            proof {
                assert(views(hits@) =~= views(hits_before).push(row@));
                assert(key_views(keys@) =~= key_views(keys_before).push(key_k@));
                assert(sel.push(v@).map_values(balance) =~= sel.map_values(balance).push(
                    balance(v@),
                ));
                assert(sel.push(v@).map_values(key) =~= sel.map_values(key).push(key(v@)));
            }
        }
        k += 1;
    }
    proof {
        assert(all.take(k as int) =~= all);
    }
    let out = listed(&hits, &keys, true, None, None);
    out
}

/// The items of the invoice `invoice_id`, in the order of their identifiers.
pub fn get_invoice_items(store: &Store, invoice_id: i32) -> (r: Vec<InvoiceItem>)
    ensures
        views(r@) == store@.items_of(invoice_id),
{
    let ghost all = store@.items;
    let ghost pred = |t: InvoiceItemView| t.invoice_id == invoice_id;
    let mut hits: Vec<InvoiceItem> = Vec::new();
    let mut k: usize = 0;
    proof {
        reveal(Seq::filter);
        assert(all.take(0).filter(pred) =~= Seq::empty());
    }
    while k < store.items.len()
        invariant
            k <= store.items.len(),
            all == views(store.items@),
            pred == |t: InvoiceItemView| t.invoice_id == invoice_id,
            views(hits@) =~= all.take(k as int).filter(pred),
        decreases store.items.len() - k,
    {
        let t = &store.items[k];
        proof {
            lemma_filter_step(all, k as int, pred);
        }
        if t.invoice_id == invoice_id {
            let ghost hits_before = hits@;
            hits.push(t.clone());
            proof {
                assert(views(hits@) =~= views(hits_before).push(t@));
            }
        }
        k += 1;
    }
    proof {
        assert(all.take(k as int) =~= all);
    }
    hits
}

/// The product that an invoice line names.
pub open spec fn product_of(t: InvoiceItemView) -> ProductView {
    ProductView { id: t.id, name: t.product_name, unit_price: None, created_at: None }
}

/// Whether a search selects the line by its product name: every line where
/// there is no search text, else those whose product name holds the text,
/// ASCII case ignored.
pub open spec fn product_matches(t: InvoiceItemView, search: Option<Seq<char>>) -> bool {
    match search {
        None => true,
        Some(q) => contains_folded(t.product_name, q),
    }
}

/// No line with the product name of `t` has a smaller identifier than `t`.
pub open spec fn first_of_name(items: Seq<InvoiceItemView>, t: InvoiceItemView) -> bool {
    forall|j: int|
        0 <= j < items.len() && (#[trigger] items[j]).product_name == t.product_name ==> t.id->0
            <= items[j].id->0
}

/// A stored invoice made of what the caller gave: the status is `unpaid` and
/// the amount paid is 0 where the caller gave none.
pub open spec fn invoice_as_stored(v: InvoiceView, id: i32, now: Seq<char>) -> InvoiceView {
    InvoiceView {
        id: Some(id),
        invoice_number: v.invoice_number,
        customer_id: v.customer_id,
        customer_name: None,
        date: v.date,
        total: v.total,
        status: Some(if v.status is Some { v.status->0 } else { "unpaid"@ }),
        paid_amount: Some(if v.paid_amount is Some { v.paid_amount->0 } else { 0 }),
        remaining_amount: None,
        created_at: Some(now),
    }
}

/// An invoice with the given fields put in place of its own; a field that is
/// not given stays.
pub open spec fn patched_invoice(
    v: InvoiceView,
    invoice_number: Option<Seq<char>>,
    customer_id: Option<i32>,
    date: Option<Seq<char>>,
    total: Option<int>,
    status: Option<Seq<char>>,
    paid_amount: Option<int>,
) -> InvoiceView {
    InvoiceView {
        id: v.id,
        invoice_number: if invoice_number is Some { invoice_number->0 } else { v.invoice_number },
        customer_id: if customer_id is Some { customer_id->0 } else { v.customer_id },
        customer_name: v.customer_name,
        date: if date is Some { date->0 } else { v.date },
        total: if total is Some { total->0 } else { v.total },
        status: if status is Some { status } else { v.status },
        paid_amount: if paid_amount is Some { paid_amount } else { v.paid_amount },
        remaining_amount: v.remaining_amount,
        created_at: v.created_at,
    }
}

impl StoreView {
    /// The distinct product names on the invoice lines that a search selects,
    /// each with the smallest identifier of a line that carries it, in
    /// ascending order of the names.
    pub open spec fn products(self, search: Option<Seq<char>>) -> Seq<ProductView> {
        let firsts = self.items.filter(
            |t: InvoiceItemView| product_matches(t, search) && first_of_name(self.items, t),
        );
        arrange(
            firsts.map_values(|t: InvoiceItemView| product_of(t)),
            firsts.map_values(|t: InvoiceItemView| KeyView::Text(t.product_name)),
            false,
        )
    }

    /// Some invoice carries the number `number`.
    pub open spec fn number_taken(self, number: Seq<char>) -> bool {
        exists|i: int|
            0 <= i < self.invoices.len() && (#[trigger] self.invoices[i]).invoice_number == number
    }

    /// Whether the store can take in an invoice with the number `number`:
    /// an identifier is left and no invoice carries that number yet.
    pub open spec fn can_take_invoice(self, number: Seq<char>) -> bool {
        self.last_invoice_id < i32::MAX && !self.number_taken(number)
    }

    /// The store with `v` added as its newest invoice.
    pub open spec fn with_invoice(self, v: InvoiceView) -> StoreView {
        StoreView {
            invoices: self.invoices.push(v),
            last_invoice_id: self.last_invoice_id + 1,
            ..self
        }
    }

    /// Whether the store can take another invoice item in.
    pub open spec fn has_room_for_item(self) -> bool {
        self.last_item_id < i32::MAX
    }

    /// The store with `t` added as its newest invoice item.
    pub open spec fn with_item(self, t: InvoiceItemView) -> StoreView {
        StoreView { items: self.items.push(t), last_item_id: self.last_item_id + 1, ..self }
    }

    /// The store without the items of the invoice `invoice_id`.
    pub open spec fn without_items_of(self, invoice_id: i32) -> StoreView {
        StoreView {
            items: self.items.filter(|t: InvoiceItemView| t.invoice_id != invoice_id),
            ..self
        }
    }

    /// The store without the invoice `id` and without its items. Payments
    /// made against the invoice stay.
    pub open spec fn without_invoice(self, id: i32) -> StoreView {
        StoreView {
            invoices: self.invoices.filter(|v: InvoiceView| v.id != Some(id)),
            ..self.without_items_of(id)
        }
    }

    /// Giving the invoice `id` the number `number` would make two invoices
    /// carry one number: the invoice exists and another one has that number.
    pub open spec fn number_clashes(self, id: i32, number: Option<Seq<char>>) -> bool {
        &&& number is Some
        &&& self.invoice(id) is Some
        &&& exists|i: int|
            0 <= i < self.invoices.len() && (#[trigger] self.invoices[i]).id != Some(id)
                && self.invoices[i].invoice_number == number->0
    }

    /// The store with the given fields put into the invoice `id`; every other
    /// invoice stays as it is.
    pub open spec fn with_invoice_patched(
        self,
        id: i32,
        invoice_number: Option<Seq<char>>,
        customer_id: Option<i32>,
        date: Option<Seq<char>>,
        total: Option<int>,
        status: Option<Seq<char>>,
        paid_amount: Option<int>,
    ) -> StoreView {
        StoreView {
            invoices: self.invoices.map_values(
                |v: InvoiceView|
                    if v.id == Some(id) {
                        patched_invoice(
                            v,
                            invoice_number,
                            customer_id,
                            date,
                            total,
                            status,
                            paid_amount,
                        )
                    } else {
                        v
                    },
            ),
            ..self
        }
    }
}

fn selects_product(t: &InvoiceItem, needle: &Option<Vec<char>>) -> (r: bool)
    ensures
        r == product_matches(t@, opt_chars(*needle)),
{
    match needle {
        None => true,
        Some(q) => holds(&t.product_name, q),
    }
}

fn is_first_of_name(store: &Store, k: usize) -> (r: bool)
    requires
        k < store@.items.len(),
    ensures
        r == first_of_name(store@.items, store@.items[k as int]),
{
    let ghost all = store@.items;
    let ghost ids = item_ids(all);
    proof {
        use_type_invariant(store);
    }
    let mut j: usize = 0;
    while j < k
        invariant
            j <= k < store.items.len(),
            all == views(store.items@),
            ids == item_ids(all),
            ids_ascend(ids, store@.last_item_id),
            forall|i: int|
                0 <= i < j ==> (#[trigger] all[i]).product_name != all[k as int].product_name,
        decreases k - j,
    {
        if store.items[j].product_name == store.items[k].product_name {
            proof {
                assert(ids[j as int]->0 < ids[k as int]->0);
                assert(all[j as int].id == ids[j as int]);
            }
            return false;
        }
        j += 1;
    }
    proof {
        let own = all[k as int];
        assert forall|i: int|
            0 <= i < all.len() && (#[trigger] all[i]).product_name
                == own.product_name implies own.id->0 <= all[i].id->0 by {
            assert(all[i].id == ids[i]);
            assert(all[k as int].id == ids[k as int]);
            if i > k {
                assert(ids[k as int]->0 < ids[i]->0);
            }
        }
    }
    true
}

/// Lists the distinct product names found on invoice lines, each once, under
/// the smallest identifier of a line that carries it, in ascending order of
/// the names. With a search text only the names that hold it, ASCII case
/// ignored, are listed. Names that differ in case are different names.
pub fn get_products_grouped(store: &Store, search_query: Option<String>) -> (r: Vec<Product>)
    ensures
        views(r@) == store@.products(opt_text(search_query)),
{
    let needle = chars_of(&search_query);
    let ghost sv = store@;
    let ghost all = sv.items;
    let ghost pred = |t: InvoiceItemView|
        product_matches(t, opt_text(search_query)) && first_of_name(sv.items, t);
    let ghost make = |t: InvoiceItemView| product_of(t);
    let ghost key = |t: InvoiceItemView| KeyView::Text(t.product_name);
    let mut hits: Vec<Product> = Vec::new();
    let mut keys: Vec<SortKey> = Vec::new();
    let mut k: usize = 0;
    proof {
        reveal(Seq::filter);
        assert(all.take(0).filter(pred) =~= Seq::empty());
    }
    while k < store.items.len()
        invariant
            k <= store.items.len(),
            sv == store@,
            all == views(store.items@),
            pred == |t: InvoiceItemView|
                product_matches(t, opt_text(search_query)) && first_of_name(sv.items, t),
            make == |t: InvoiceItemView| product_of(t),
            key == |t: InvoiceItemView| KeyView::Text(t.product_name),
            opt_chars(needle) == opt_text(search_query),
            hits.len() == keys.len(),
            views(hits@) =~= all.take(k as int).filter(pred).map_values(make),
            key_views(keys@) =~= all.take(k as int).filter(pred).map_values(key),
        decreases store.items.len() - k,
    {
        let t = &store.items[k];
        proof {
            lemma_filter_step(all, k as int, pred);
        }
        if selects_product(t, &needle) && is_first_of_name(store, k) {
            let ghost sel = all.take(k as int).filter(pred);
            let ghost hits_before = hits@;
            let ghost keys_before = keys@;
            let row = Product {
                id: t.id,
                name: t.product_name.clone(),
                unit_price: None,
                created_at: None,
            };
            let key_k = SortKey::Text(to_chars(t.product_name.as_str()));
            hits.push(row);
            keys.push(key_k);
            proof {
                assert(views(hits@) =~= views(hits_before).push(row@));
                assert(key_views(keys@) =~= key_views(keys_before).push(key_k@));
                assert(sel.push(t@).map_values(make) =~= sel.map_values(make).push(make(t@)));
                assert(sel.push(t@).map_values(key) =~= sel.map_values(key).push(key(t@)));
            }
        }
        k += 1;
    }
    proof {
        assert(all.take(k as int) =~= all);
    }
    let out = listed(&hits, &keys, false, None, None);
    out
}

fn number_in_use(store: &Store, number: &String, except: Option<i32>) -> (r: bool)
    ensures
        r == exists|i: int|
            0 <= i < store@.invoices.len() && (except is None || (
            #[trigger] store@.invoices[i]).id != except) && store@.invoices[i].invoice_number
                == number@,
{
    let ghost all = store@.invoices;
    let mut k: usize = 0;
    while k < store.invoices.len()
        invariant
            k <= store.invoices.len(),
            all == views(store.invoices@),
            forall|i: int|
                0 <= i < k ==> !((except is None || (#[trigger] all[i]).id != except)
                    && all[i].invoice_number == number@),
        decreases store.invoices.len() - k,
    {
        let v = &store.invoices[k];
        let other: bool = match except {
            None => true,
            Some(id) => match v.id {
                Some(own) => own != id,
                None => true,
            },
        };
        if other && v.invoice_number == *number {
            proof {
                assert(all[k as int] == v@);
                assert(except is None || all[k as int].id != except);
                assert(all[k as int].invoice_number == number@);
            }
            return true;
        }
        k += 1;
    }
    false
}

/// Adds an invoice with the creation time `now`, under the next identifier,
/// and returns that identifier. The store keeps the number, customer, date
/// and total as given, `unpaid` as the status and 0 as the amount paid where
/// none is given; it does not look whether the customer exists.
///
/// Fails with `QueryFailed`, and leaves the store as it was, when another
/// invoice carries the same number or the identifiers are used up.
pub fn create_invoice_at(
    store: &mut Store,
    invoice: Invoice,
    now: String,
) -> (r: Result<i32, ErrorKind>)
    ensures
        match r {
            Ok(id) => {
                &&& old(store)@.can_take_invoice(invoice@.invoice_number)
                &&& id == old(store)@.last_invoice_id + 1
                &&& final(store)@ == old(store)@.with_invoice(
                    invoice_as_stored(invoice@, id, now@),
                )
                &&& forall|i: int|
                    0 <= i < old(store)@.invoices.len() ==> (#[trigger] old(store)@.invoices[i]).id
                        != Some(id)
            },
            Err(e) => {
                &&& !old(store)@.can_take_invoice(invoice@.invoice_number)
                &&& e == ErrorKind::QueryFailed
                &&& final(store)@ == old(store)@
            },
        },
{
    proof {
        use_type_invariant(&*store);
        if store@.last_invoice_id < i32::MAX {
            let ids = invoice_ids(store@.invoices);
            crate::store::lemma_next_id_is_fresh(ids, store@.last_invoice_id);
            assert forall|i: int| 0 <= i < store@.invoices.len() implies (
            #[trigger] store@.invoices[i]).id != Some((store@.last_invoice_id + 1) as i32) by {
                assert(ids[i] == store@.invoices[i].id);
            }
        }
    }
    if store.last_invoice_id == i32::MAX {
        return Err(ErrorKind::QueryFailed);
    }
    if number_in_use(store, &invoice.invoice_number, None) {
        return Err(ErrorKind::QueryFailed);
    }
    let id: i32 = store.last_invoice_id + 1;
    let row = Invoice {
        id: Some(id),
        invoice_number: invoice.invoice_number,
        customer_id: invoice.customer_id,
        customer_name: None,
        date: invoice.date,
        total: invoice.total,
        status: Some(
            match invoice.status {
                Some(s) => s,
                None => "unpaid".to_owned(),
            },
        ),
        paid_amount: Some(
            match invoice.paid_amount {
                Some(p) => p,
                None => 0,
            },
        ),
        remaining_amount: None,
        created_at: Some(now),
    };
    let mut rows: Vec<Invoice> = Vec::new();
    std::mem::swap(&mut store.invoices, &mut rows);
    let ghost before = rows@;
    rows.push(row);
    proof {
        assert(views(rows@) =~= views(before).push(row@));
        assert(invoice_ids(views(rows@)) =~= invoice_ids(views(before)).push(Some(id)));
    }
    store.last_invoice_id = id;
    std::mem::swap(&mut store.invoices, &mut rows);
    Ok(id)
}

/// Adds an invoice, created now, and returns its identifier. The creation
/// time is read from the clock; everything else is as in
/// [`create_invoice_at`].
pub fn create_invoice(store: &mut Store, invoice: Invoice) -> (r: Result<i32, ErrorKind>)
    ensures
        match r {
            Ok(id) => {
                &&& old(store)@.can_take_invoice(invoice@.invoice_number)
                &&& id == old(store)@.last_invoice_id + 1
                &&& final(store)@.invoices.len() == old(store)@.invoices.len() + 1
                &&& final(store)@.invoices.last().created_at is Some
                &&& final(store)@ == old(store)@.with_invoice(
                    invoice_as_stored(
                        invoice@,
                        id,
                        final(store)@.invoices.last().created_at->0,
                    ),
                )
            },
            Err(e) => {
                &&& !old(store)@.can_take_invoice(invoice@.invoice_number)
                &&& e == ErrorKind::QueryFailed
                &&& final(store)@ == old(store)@
            },
        },
{
    let now = timestamp_now();
    create_invoice_at(store, invoice, now)
}

/// Adds an invoice item under the next identifier and returns it as stored.
/// The store does not look whether the invoice exists.
///
/// Fails with `QueryFailed`, and leaves the store as it was, only when the
/// identifiers of invoice items are used up.
pub fn create_invoice_item(
    store: &mut Store,
    item: InvoiceItem,
) -> (r: Result<InvoiceItem, ErrorKind>)
    ensures
        match r {
            Ok(t) => {
                &&& old(store)@.has_room_for_item()
                &&& t@ == (InvoiceItemView {
                    id: Some((old(store)@.last_item_id + 1) as i32),
                    ..item@
                })
                &&& final(store)@ == old(store)@.with_item(t@)
                &&& forall|i: int|
                    0 <= i < old(store)@.items.len() ==> (#[trigger] old(store)@.items[i]).id
                        != t.id
            },
            Err(e) => {
                &&& !old(store)@.has_room_for_item()
                &&& e == ErrorKind::QueryFailed
                &&& final(store)@ == old(store)@
            },
        },
{
    proof {
        use_type_invariant(&*store);
        if store@.last_item_id < i32::MAX {
            let ids = item_ids(store@.items);
            crate::store::lemma_next_id_is_fresh(ids, store@.last_item_id);
            assert forall|i: int| 0 <= i < store@.items.len() implies (
            #[trigger] store@.items[i]).id != Some((store@.last_item_id + 1) as i32) by {
                assert(ids[i] == store@.items[i].id);
            }
        }
    }
    if store.last_item_id == i32::MAX {
        return Err(ErrorKind::QueryFailed);
    }
    let id: i32 = store.last_item_id + 1;
    let row = InvoiceItem {
        id: Some(id),
        invoice_id: item.invoice_id,
        product_name: item.product_name,
        unit_price: item.unit_price,
        quantity: item.quantity,
        total: item.total,
    };
    let out = row.clone();
    let mut rows: Vec<InvoiceItem> = Vec::new();
    std::mem::swap(&mut store.items, &mut rows);
    let ghost before = rows@;
    rows.push(row);
    proof {
        assert(views(rows@) =~= views(before).push(row@));
        assert(item_ids(views(rows@)) =~= item_ids(views(before)).push(Some(id)));
    }
    store.last_item_id = id;
    std::mem::swap(&mut store.items, &mut rows);
    Ok(out)
}

/// Deletes the items of the invoice `invoice_id`; the invoice itself stays.
/// Nothing changes where it has no items.
pub fn delete_invoice_items(store: &mut Store, invoice_id: i32)
    ensures
        final(store)@ == old(store)@.without_items_of(invoice_id),
{
    proof {
        use_type_invariant(&*store);
    }
    let ghost all = store@.items;
    let ghost ids = item_ids(all);
    let ghost last = store@.last_item_id;
    let ghost keep = |t: InvoiceItemView| t.invoice_id != invoice_id;
    let mut rows: Vec<InvoiceItem> = Vec::new();
    std::mem::swap(&mut store.items, &mut rows);
    let mut kept: Vec<InvoiceItem> = Vec::new();
    let mut k: usize = 0;
    proof {
        reveal(Seq::filter);
        assert(all.take(0).filter(keep) =~= Seq::empty());
    }
    while k < rows.len()
        invariant
            k <= rows.len(),
            all == views(rows@),
            ids == item_ids(all),
            ids_ascend(ids, last),
            keep == |t: InvoiceItemView| t.invoice_id != invoice_id,
            views(kept@) =~= all.take(k as int).filter(keep),
            ids_ascend(item_ids(views(kept@)), last),
            forall|i: int, j: int|
                0 <= i < kept@.len() && k <= j < ids.len() ==> (#[trigger] item_ids(
                    views(kept@),
                )[i])->0 < (#[trigger] ids[j])->0,
        decreases rows.len() - k,
    {
        let t = &rows[k];
        proof {
            lemma_filter_step(all, k as int, keep);
        }
        if t.invoice_id != invoice_id {
            let ghost kept_before = kept@;
            kept.push(t.clone());
            proof {
                assert(views(kept@) =~= views(kept_before).push(t@));
                let kids = item_ids(views(kept@));
                let kids_before = item_ids(views(kept_before));
                assert(kids =~= kids_before.push(ids[k as int]));
                assert forall|i: int, j: int|
                    0 <= i < kept@.len() && k + 1 <= j < ids.len() implies (#[trigger] kids[i])->0
                    < (#[trigger] ids[j])->0 by {
                    if i < kept_before.len() {
                        assert(kids[i] == kids_before[i]);
                    } else {
                        assert(ids[k as int]->0 < ids[j]->0);
                    }
                }
                assert forall|i: int, j: int| 0 <= i < j < kids.len() implies (
                #[trigger] kids[i])->0 < (#[trigger] kids[j])->0 by {
                    if j < kept_before.len() {
                        assert(kids[i] == kids_before[i] && kids[j] == kids_before[j]);
                    } else {
                        assert(kids[i] == kids_before[i]);
                        assert(kids_before[i]->0 < ids[k as int]->0);
                    }
                }
                assert forall|i: int| 0 <= i < kids.len() implies (#[trigger] kids[i]) is Some && 1
                    <= kids[i]->0 <= last by {
                    if i < kept_before.len() {
                        assert(kids[i] == kids_before[i]);
                    }
                }
            }
        }
        k += 1;
    }
    proof {
        assert(all.take(k as int) =~= all);
    }
    std::mem::swap(&mut store.items, &mut kept);
}

/// Deletes the invoice `id` together with its items: first the items, then
/// the invoice. Deleting an identifier that no invoice has removes the items
/// that name it and nothing else. Payments made against the invoice stay.
pub fn delete_invoice(store: &mut Store, id: i32)
    ensures
        final(store)@ == old(store)@.without_invoice(id),
{
    delete_invoice_items(store, id);
    proof {
        use_type_invariant(&*store);
        assert(stored_ids(store.invoices@) =~= invoice_ids(store@.invoices));
    }
    let ghost before = store@;
    let ghost ids = invoice_ids(before.invoices);
    let ghost keep = |v: InvoiceView| v.id != Some(id);
    match find(&store.invoices, id) {
        Some(p) => {
            let mut rows: Vec<Invoice> = Vec::new();
            std::mem::swap(&mut store.invoices, &mut rows);
            rows.remove(p);
            proof {
                assert forall|i: int| 0 <= i < before.invoices.len() && i != p implies keep(
                    #[trigger] before.invoices[i],
                ) by {
                    assert(ids[i] == before.invoices[i].id);
                    if i < p {
                        assert(ids[i]->0 < ids[p as int]->0);
                    } else {
                        assert(ids[p as int]->0 < ids[i]->0);
                    }
                }
                assert(ids[p as int] == before.invoices[p as int].id);
                lemma_filter_removes_one(before.invoices, keep, p as int);
                assert(views(rows@) =~= before.invoices.remove(p as int));
                assert(invoice_ids(views(rows@)) =~= ids.remove(p as int));
            }
            std::mem::swap(&mut store.invoices, &mut rows);
        },
        None => {
            proof {
                assert forall|i: int| 0 <= i < before.invoices.len() implies keep(
                    #[trigger] before.invoices[i],
                ) by {
                    assert(ids[i] == before.invoices[i].id);
                }
                lemma_filter_keeps_all(before.invoices, keep);
            }
        },
    }
}

/// Puts the given fields into the invoice `id` and leaves the fields that are
/// not given as they are. Nothing changes where no invoice has that
/// identifier or no field is given.
///
/// Fails with `QueryFailed`, and leaves the store as it was, when the invoice
/// exists and the number given is carried by another invoice.
pub fn update_invoice(
    store: &mut Store,
    id: i32,
    invoice_number: Option<String>,
    customer_id: Option<i32>,
    date: Option<String>,
    total: Option<i64>,
    status: Option<String>,
    paid_amount: Option<i64>,
) -> (r: Result<(), ErrorKind>)
    ensures
        match r {
            Ok(_) => {
                &&& !old(store)@.number_clashes(id, opt_text(invoice_number))
                &&& final(store)@ == old(store)@.with_invoice_patched(
                    id,
                    opt_text(invoice_number),
                    customer_id,
                    opt_text(date),
                    opt_amount(total),
                    opt_text(status),
                    opt_amount(paid_amount),
                )
            },
            Err(e) => {
                &&& old(store)@.number_clashes(id, opt_text(invoice_number))
                &&& e == ErrorKind::QueryFailed
                &&& final(store)@ == old(store)@
            },
        },
{
    proof {
        use_type_invariant(&*store);
        assert(stored_ids(store.invoices@) =~= invoice_ids(store@.invoices));
    }
    let ghost before = store@;
    let ghost ids = invoice_ids(before.invoices);
    let ghost patch = |v: InvoiceView|
        if v.id == Some(id) {
            patched_invoice(
                v,
                opt_text(invoice_number),
                customer_id,
                opt_text(date),
                opt_amount(total),
                opt_text(status),
                opt_amount(paid_amount),
            )
        } else {
            v
        };
    match find(&store.invoices, id) {
        Some(p) => {
            let clash: bool = match &invoice_number {
                Some(n) => number_in_use(store, n, Some(id)),
                None => false,
            };
            if clash {
                return Err(ErrorKind::QueryFailed);
            }
            let cur = &store.invoices[p];
            let row = Invoice {
                id: cur.id,
                invoice_number: match invoice_number {
                    Some(v) => v,
                    None => cur.invoice_number.clone(),
                },
                customer_id: match customer_id {
                    Some(v) => v,
                    None => cur.customer_id,
                },
                customer_name: copy_opt_text(&cur.customer_name),
                date: match date {
                    Some(v) => v,
                    None => cur.date.clone(),
                },
                total: match total {
                    Some(v) => v,
                    None => cur.total,
                },
                status: match status {
                    Some(v) => Some(v),
                    None => copy_opt_text(&cur.status),
                },
                paid_amount: match paid_amount {
                    Some(v) => Some(v),
                    None => cur.paid_amount,
                },
                remaining_amount: cur.remaining_amount,
                created_at: copy_opt_text(&cur.created_at),
            };
            let mut rows: Vec<Invoice> = Vec::new();
            std::mem::swap(&mut store.invoices, &mut rows);
            rows.set(p, row);
            proof {
                assert(ids[p as int] == before.invoices[p as int].id);
                assert forall|i: int| 0 <= i < rows@.len() implies #[trigger] views(rows@)[i]
                    == patch(before.invoices[i]) by {
                    if i != p {
                        assert(ids[i] == before.invoices[i].id);
                        if i < p {
                            assert(ids[i]->0 < ids[p as int]->0);
                        } else {
                            assert(ids[p as int]->0 < ids[i]->0);
                        }
                    }
                }
                let after = views(rows@);
                assert(after =~= before.invoices.map_values(patch));
                assert(invoice_ids(after) =~= ids);
                assert forall|i: int, j: int| 0 <= i < j < after.len() implies (
                #[trigger] after[i]).invoice_number != (#[trigger] after[j]).invoice_number by {
                    assert(before.invoices[i].invoice_number != before.invoices[j].invoice_number);
                    assert(ids[i] == before.invoices[i].id);
                    assert(ids[j] == before.invoices[j].id);
                    assert(ids[i]->0 < ids[j]->0);
                }
            }
            std::mem::swap(&mut store.invoices, &mut rows);
            Ok(())
        },
        None => {
            proof {
                assert forall|i: int| 0 <= i < before.invoices.len() implies patch(
                    #[trigger] before.invoices[i],
                ) == before.invoices[i] by {
                    assert(ids[i] == before.invoices[i].id);
                }
                assert(before.invoices.map_values(patch) =~= before.invoices);
            }
            Ok(())
        },
    }
}

/// After an invoice is deleted the store holds neither the invoice nor any of
/// its items: looking it up finds nothing, and its list of items is empty.
pub proof fn lemma_deleted_invoice_is_gone(s: StoreView, id: i32)
    requires
        s.wf(),
    ensures
        s.without_invoice(id).invoice(id) is None,
        s.without_invoice(id).items_of(id) == Seq::<InvoiceItemView>::empty(),
{
    let t = s.without_invoice(id);
    let keep_item = |t: InvoiceItemView| t.invoice_id != id;
    let own = |t: InvoiceItemView| t.invoice_id == id;
    let keep = |v: InvoiceView| v.id != Some(id);
    assert forall|i: int| 0 <= i < t.items.len() implies !own(#[trigger] t.items[i]) by {
        s.items.lemma_filter_pred(keep_item, i);
    }
    lemma_filter_none(t.items, own);
    let ids = invoice_ids(t.invoices);
    assert forall|i: int| 0 <= i < ids.len() implies ids[i] != Some(id) by {
        s.invoices.lemma_filter_pred(keep, i);
        assert(ids[i] == t.invoices[i].id);
    }
}

/// Taking an invoice in leaves the contents of the store well formed.
pub proof fn lemma_new_invoice_keeps_wf(s: StoreView, v: InvoiceView, now: Seq<char>)
    requires
        s.wf(),
        s.can_take_invoice(v.invoice_number),
    ensures
        s.with_invoice(invoice_as_stored(v, (s.last_invoice_id + 1) as i32, now)).wf(),
{
    let row = invoice_as_stored(v, (s.last_invoice_id + 1) as i32, now);
    let more = s.with_invoice(row).invoices;
    assert(invoice_ids(more) =~= invoice_ids(s.invoices).push(row.id));
    assert forall|i: int| 0 <= i < more.len() implies crate::store::invoice_stored(
        #[trigger] more[i],
    ) by {
        if i < s.invoices.len() {
            assert(crate::store::invoice_stored(s.invoices[i]));
        }
    }
    assert forall|i: int, j: int| 0 <= i < j < more.len() implies (
    #[trigger] more[i]).invoice_number != (#[trigger] more[j]).invoice_number by {
        if j < s.invoices.len() {
            assert(s.invoices[i].invoice_number != s.invoices[j].invoice_number);
        } else {
            assert(s.invoices[i].invoice_number != v.invoice_number);
        }
    }
}

/// Taking an invoice item in leaves the contents of the store well formed.
pub proof fn lemma_new_item_keeps_wf(s: StoreView, t: InvoiceItemView)
    requires
        s.wf(),
        s.has_room_for_item(),
    ensures
        s.with_item(InvoiceItemView { id: Some((s.last_item_id + 1) as i32), ..t }).wf(),
{
    let row = InvoiceItemView { id: Some((s.last_item_id + 1) as i32), ..t };
    assert(item_ids(s.with_item(row).items) =~= item_ids(s.items).push(row.id));
}

/// Putting fields into an invoice leaves the contents of the store well
/// formed, unless the number given is carried by another invoice.
pub proof fn lemma_patched_invoice_keeps_wf(
    s: StoreView,
    id: i32,
    invoice_number: Option<Seq<char>>,
    customer_id: Option<i32>,
    date: Option<Seq<char>>,
    total: Option<int>,
    status: Option<Seq<char>>,
    paid_amount: Option<int>,
)
    requires
        s.wf(),
        !s.number_clashes(id, invoice_number),
    ensures
        s.with_invoice_patched(
            id,
            invoice_number,
            customer_id,
            date,
            total,
            status,
            paid_amount,
        ).wf(),
{
    let after = s.with_invoice_patched(
        id,
        invoice_number,
        customer_id,
        date,
        total,
        status,
        paid_amount,
    ).invoices;
    let ids = invoice_ids(s.invoices);
    assert(invoice_ids(after) =~= ids);
    assert forall|i: int| 0 <= i < after.len() implies crate::store::invoice_stored(
        #[trigger] after[i],
    ) by {
        assert(crate::store::invoice_stored(s.invoices[i]));
    }
    assert forall|i: int, j: int| 0 <= i < j < after.len() implies (
    #[trigger] after[i]).invoice_number != (#[trigger] after[j]).invoice_number by {
        assert(s.invoices[i].invoice_number != s.invoices[j].invoice_number);
        assert(ids[i] == s.invoices[i].id && ids[j] == s.invoices[j].id);
        assert(ids[i]->0 < ids[j]->0);
        if s.invoices[i].id == Some(id) {
            crate::store::lemma_position_unique(ids, s.last_invoice_id, id, i);
        }
        if s.invoices[j].id == Some(id) {
            crate::store::lemma_position_unique(ids, s.last_invoice_id, id, j);
        }
    }
}

/// Deleting an invoice with its items, or the items alone, leaves the
/// contents of the store well formed.
pub proof fn lemma_deleted_invoice_keeps_wf(s: StoreView, id: i32)
    requires
        s.wf(),
    ensures
        s.without_items_of(id).wf(),
        s.without_invoice(id).wf(),
{
    let keep_item = |t: InvoiceItemView| t.invoice_id != id;
    let item_id = |t: InvoiceItemView| t.id;
    assert(s.items.map_values(item_id) =~= item_ids(s.items));
    crate::listing::lemma_filter_keeps_ascent(s.items, keep_item, item_id, s.last_item_id);
    let items = s.without_items_of(id).items;
    assert(item_ids(items) =~= items.map_values(item_id));

    let keep = |v: InvoiceView| v.id != Some(id);
    let invoice_id = |v: InvoiceView| v.id;
    assert(s.invoices.map_values(invoice_id) =~= invoice_ids(s.invoices));
    crate::listing::lemma_filter_keeps_ascent(s.invoices, keep, invoice_id, s.last_invoice_id);
    let left = s.without_invoice(id).invoices;
    let lids = left.map_values(invoice_id);
    assert(invoice_ids(left) =~= lids);
    assert forall|i: int| 0 <= i < left.len() implies crate::store::invoice_stored(
        #[trigger] left[i],
    ) by {
        assert(left.contains(left[i]));
        s.invoices.lemma_filter_contains_rev(keep, left[i]);
    }
    assert forall|i: int, j: int| 0 <= i < j < left.len() implies (
    #[trigger] left[i]).invoice_number != (#[trigger] left[j]).invoice_number by {
        assert(left.contains(left[i]) && left.contains(left[j]));
        s.invoices.lemma_filter_contains_rev(keep, left[i]);
        s.invoices.lemma_filter_contains_rev(keep, left[j]);
        let a = choose|a: int| 0 <= a < s.invoices.len() && s.invoices[a] == left[i];
        let b = choose|b: int| 0 <= b < s.invoices.len() && s.invoices[b] == left[j];
        assert(lids[i] == left[i].id && lids[j] == left[j].id);
        assert(lids[i]->0 < lids[j]->0);
        assert(a != b);
        if a < b {
            assert(s.invoices[a].invoice_number != s.invoices[b].invoice_number);
        } else {
            assert(s.invoices[b].invoice_number != s.invoices[a].invoice_number);
        }
    }
}

/// A payment counts as paid on the invoice that it names and on no other:
/// taking it in raises the amount paid on that invoice by its amount and
/// leaves the amount paid on every other invoice as it was. A payment that
/// names no invoice changes none.
pub proof fn lemma_payment_counts_for_its_invoice(s: StoreView, p: PaymentView, id: i32)
    ensures
        s.with_payment(p).paid_on(id) == s.paid_on(id) + (if p.invoice_id == Some(id) {
            p.amount
        } else {
            0
        }),
{
    let linked = |q: PaymentView| q.invoice_id == Some(id);
    let amount = |q: PaymentView| q.amount;
    s.payments.lemma_filter_push(p, linked);
    if p.invoice_id == Some(id) {
        let before = s.payments.filter(linked);
        assert(before.push(p).map_values(amount) =~= before.map_values(amount).push(p.amount));
        lemma_sum_push(before.map_values(amount), p.amount);
    }
}

} // verus!
