//! What customers owe: debts per customer, the totals over the whole store,
//! and a customer's ledger over a span of dates.

use vstd::prelude::*;
use crate::invoices::customer_of;
use crate::listing::{chars_of, holds, lemma_filter_keeps_all, lemma_filter_none, lemma_filter_step,
    lemma_sum_of_arranged, lemma_sum_push, listed, opt_chars, opt_holds, sum_of};
use crate::models::{Customer, CustomerDebt, CustomerDebtView, CustomerView, Invoice, InvoiceView,
    Payment, PaymentView, ReportSummary, Transaction, TransactionView, TransactionsResponse,
    TransactionsResponseView, views, opt_text};
use crate::order::{SortKey, KeyView, arrange, key_views, ordering, lemma_ordering_permutes};
use crate::store::{Store, StoreView, customer_ids, invoice_ids, payment_ids,
    lemma_ascending_ids_bound};
use crate::text::{contains_folded, text_le, text_before, to_chars, lemma_text_lt_total};

verus! {

/// A span of dates, both ends included, or no limit at all.
pub open spec fn in_window(date: Seq<char>, window: Option<(Seq<char>, Seq<char>)>) -> bool {
    match window {
        None => true,
        Some(w) => text_le(w.0, date) && text_le(date, w.1),
    }
}

/// The invoices of one customer, or of all, dated within a span.
pub open spec fn invoice_selected(
    customer: Option<i32>,
    window: Option<(Seq<char>, Seq<char>)>,
) -> spec_fn(InvoiceView) -> bool {
    |v: InvoiceView| (customer is None || v.customer_id == customer->0) && in_window(v.date, window)
}

/// The payments of one customer, or of all, dated within a span.
pub open spec fn payment_selected(
    customer: Option<i32>,
    window: Option<(Seq<char>, Seq<char>)>,
) -> spec_fn(PaymentView) -> bool {
    |p: PaymentView| (customer is None || p.customer_id == customer->0) && in_window(p.date, window)
}

/// The total of an invoice.
pub open spec fn invoice_total() -> spec_fn(InvoiceView) -> int {
    |v: InvoiceView| v.total
}

/// The amount of a payment.
pub open spec fn payment_amount() -> spec_fn(PaymentView) -> int {
    |p: PaymentView| p.amount
}

/// What an invoice still counts for by its status: its total while `unpaid`,
/// its total less the amount recorded as paid while `partial`, nothing
/// otherwise.
pub open spec fn owed_on() -> spec_fn(InvoiceView) -> int {
    |v: InvoiceView|
        if v.status == Some("unpaid"@) {
            v.total
        } else if v.status == Some("partial"@) {
            v.total - (if v.paid_amount is Some { v.paid_amount->0 } else { 0 })
        } else {
            0
        }
}

/// Whether a search selects the customer for the list of debts: every
/// customer where there is no search text, else those whose name, phone or
/// notes hold the text, ASCII case ignored.
pub open spec fn debtor_matches(c: CustomerView, search: Option<Seq<char>>) -> bool {
    match search {
        None => true,
        Some(q) => {
            ||| contains_folded(c.name, q)
            ||| contains_folded(c.phone, q)
            ||| (c.notes is Some && contains_folded(c.notes->0, q))
        },
    }
}

/// The date that stands for "no end": later than every date of four-digit
/// years.
pub open spec fn far_future() -> Seq<char> {
    "9999-12-31"@
}

/// The ledger line of an invoice of customer `c`.
pub open spec fn invoice_line(c: CustomerView) -> spec_fn(InvoiceView) -> TransactionView {
    |v: InvoiceView|
        TransactionView {
            record_id: v.id->0,
            transaction_type: "invoice"@,
            reference: Some(v.invoice_number),
            customer_id: v.customer_id,
            customer_name: c.name,
            customer_phone: c.phone,
            date: v.date,
            amount: v.total,
            created_at: v.created_at->0,
        }
}

/// The ledger line of a payment of customer `c`.
pub open spec fn payment_line(c: CustomerView) -> spec_fn(PaymentView) -> TransactionView {
    |p: PaymentView|
        TransactionView {
            record_id: p.id->0,
            transaction_type: "payment"@,
            reference: None,
            customer_id: p.customer_id,
            customer_name: c.name,
            customer_phone: c.phone,
            date: p.date,
            amount: p.amount,
            created_at: p.created_at->0,
        }
}

/// The key that orders invoices by date.
pub open spec fn invoice_date_key() -> spec_fn(InvoiceView) -> KeyView {
    |v: InvoiceView| KeyView::Text(v.date)
}

/// The key that orders payments by date.
pub open spec fn payment_date_key() -> spec_fn(PaymentView) -> KeyView {
    |p: PaymentView| KeyView::Text(p.date)
}

impl StoreView {
    /// The sum of the totals of the invoices selected.
    pub open spec fn invoice_sum(
        self,
        customer: Option<i32>,
        window: Option<(Seq<char>, Seq<char>)>,
    ) -> int {
        sum_of(self.invoices.filter(invoice_selected(customer, window)).map_values(invoice_total()))
    }

    /// The sum of the amounts of the payments selected.
    pub open spec fn payment_sum(
        self,
        customer: Option<i32>,
        window: Option<(Seq<char>, Seq<char>)>,
    ) -> int {
        sum_of(
            self.payments.filter(payment_selected(customer, window)).map_values(payment_amount()),
        )
    }

    /// The debt of customer `c`: all its invoices less all its payments.
    pub open spec fn debt_of(self) -> spec_fn(CustomerView) -> CustomerDebtView {
        |c: CustomerView|
            CustomerDebtView {
                id: c.id->0,
                name: c.name,
                phone: c.phone,
                total_debt: self.invoice_sum(c.id, None) - self.payment_sum(c.id, None),
                total_payments: self.payment_sum(c.id, None),
                total_invoices: self.invoice_sum(c.id, None),
            }
    }

    /// The customers that the list of debts shows: those that the search
    /// selects, without those that owe exactly nothing unless they are asked
    /// for.
    pub open spec fn debtor_selected(
        self,
        include_zero: bool,
        search: Option<Seq<char>>,
    ) -> spec_fn(CustomerView) -> bool {
        |c: CustomerView|
            debtor_matches(c, search) && (include_zero || self.invoice_sum(c.id, None)
                - self.payment_sum(c.id, None) != 0)
    }

    /// The key that orders the list of debts.
    pub open spec fn debt_key(self) -> spec_fn(CustomerView) -> KeyView {
        |c: CustomerView|
            KeyView::Number(self.invoice_sum(c.id, None) - self.payment_sum(c.id, None))
    }

    /// The list of debts: one row for each customer shown, the largest debt
    /// first.
    pub open spec fn debts_listed(self, include_zero: bool, search: Option<Seq<char>>) -> Seq<
        CustomerDebtView,
    > {
        let shown = self.customers.filter(self.debtor_selected(include_zero, search));
        arrange(shown.map_values(self.debt_of()), shown.map_values(self.debt_key()), true)
    }

    /// What the customer owes on its invoices, going by their status.
    pub open spec fn owed_by(self, customer_id: i32) -> int {
        sum_of(
            self.invoices.filter(invoice_selected(Some(customer_id), None)).map_values(owed_on()),
        )
    }

    /// The ledger of a customer: its invoices and payments dated within the
    /// span, earliest date first, on one date invoices before payments. It is
    /// empty where the store does not hold the customer.
    pub open spec fn ledger(self, customer_id: i32, from: Seq<char>, to: Seq<char>) -> Seq<
        TransactionView,
    > {
        match self.customer(customer_id) {
            None => Seq::empty(),
            Some(c) => {
                let window = Some((from, to));
                let billed = self.invoices.filter(invoice_selected(Some(customer_id), window));
                let paid = self.payments.filter(payment_selected(Some(customer_id), window));
                arrange(
                    billed.map_values(invoice_line(c)) + paid.map_values(payment_line(c)),
                    billed.map_values(invoice_date_key()) + paid.map_values(payment_date_key()),
                    false,
                )
            },
        }
    }

    /// The ledger of a customer from `from` to `to`, or to the far future
    /// where no end is given, with the sums of the invoices and of the
    /// payments dated within that span and the difference between them.
    pub open spec fn transactions(
        self,
        customer_id: i32,
        from: Seq<char>,
        to: Option<Seq<char>>,
    ) -> TransactionsResponseView {
        let end = if to is Some { to->0 } else { far_future() };
        let window = Some((from, end));
        TransactionsResponseView {
            data: self.ledger(customer_id, from, end),
            total_invoices: self.invoice_sum(Some(customer_id), window),
            total_payments: self.payment_sum(Some(customer_id), window),
            remaining_total: self.invoice_sum(Some(customer_id), window) - self.payment_sum(
                Some(customer_id),
                window,
            ),
        }
    }
}

/// The two ends of a span, as characters.
pub open spec fn window_view(w: Option<(Vec<char>, Vec<char>)>) -> Option<(Seq<char>, Seq<char>)> {
    match w {
        Some(p) => Some((p.0@, p.1@)),
        None => None,
    }
}

pub(crate) fn within(date: &String, window: &Option<(Vec<char>, Vec<char>)>) -> (r: bool)
    ensures
        r == in_window(date@, window_view(*window)),
{
    match window {
        None => true,
        Some(w) => {
            let d = to_chars(date.as_str());
            proof {
                lemma_text_lt_total(w.0@, d@);
                lemma_text_lt_total(d@, w.1@);
            }
            !text_before(&d, &w.0) && !text_before(&w.1, &d)
        },
    }
}

pub(crate) fn picks_invoice(
    v: &Invoice,
    customer: Option<i32>,
    window: &Option<(Vec<char>, Vec<char>)>,
) -> (r: bool)
    ensures
        r == invoice_selected(customer, window_view(*window))(v@),
{
    let own = match customer {
        Some(c) => v.customer_id == c,
        None => true,
    };
    own && within(&v.date, window)
}

fn picks_payment(
    p: &Payment,
    customer: Option<i32>,
    window: &Option<(Vec<char>, Vec<char>)>,
) -> (r: bool)
    ensures
        r == payment_selected(customer, window_view(*window))(p@),
{
    let own = match customer {
        Some(c) => p.customer_id == c,
        None => true,
    };
    own && within(&p.date, window)
}

pub(crate) fn invoice_sum(
    store: &Store,
    customer: Option<i32>,
    window: &Option<(Vec<char>, Vec<char>)>,
) -> (r: i128)
    ensures
        r == store@.invoice_sum(customer, window_view(*window)),
        -0x4000_0000_0000_0000_0000_0000 <= r <= 0x4000_0000_0000_0000_0000_0000,
{
    let ghost all = store@.invoices;
    let ghost pred = invoice_selected(customer, window_view(*window));
    let ghost amount = invoice_total();
    let mut total: i128 = 0;
    let mut k: usize = 0;
    proof {
        use_type_invariant(store);
        reveal(Seq::filter);
        assert(all.take(0).filter(pred) =~= Seq::empty());
        if all.len() > 0 {
            lemma_ascending_ids_bound(invoice_ids(all), store@.last_invoice_id, 0);
        }
    }
    while k < store.invoices.len()
        invariant
            k <= store.invoices.len() <= 0x7fff_ffff,
            all == views(store.invoices@),
            pred == invoice_selected(customer, window_view(*window)),
            amount == invoice_total(),
            total == sum_of(all.take(k as int).filter(pred).map_values(amount)),
            -(k * 0x8000_0000_0000_0000) <= total <= k * 0x8000_0000_0000_0000,
        decreases store.invoices.len() - k,
    {
        let v = &store.invoices[k];
        proof {
            lemma_filter_step(all, k as int, pred);
        }
        if picks_invoice(v, customer, window) {
            let ghost sel = all.take(k as int).filter(pred);
            total = total + v.total as i128;
            proof {
                assert(sel.push(v@).map_values(amount) =~= sel.map_values(amount).push(amount(v@)));
                lemma_sum_push(sel.map_values(amount), amount(v@));
            }
        }
        k += 1;
    }
    proof {
        assert(all.take(k as int) =~= all);
    }
    total
}

fn payment_sum(
    store: &Store,
    customer: Option<i32>,
    window: &Option<(Vec<char>, Vec<char>)>,
) -> (r: i128)
    ensures
        r == store@.payment_sum(customer, window_view(*window)),
        -0x4000_0000_0000_0000_0000_0000 <= r <= 0x4000_0000_0000_0000_0000_0000,
{
    let ghost all = store@.payments;
    let ghost pred = payment_selected(customer, window_view(*window));
    let ghost amount = payment_amount();
    let mut total: i128 = 0;
    let mut k: usize = 0;
    proof {
        use_type_invariant(store);
        reveal(Seq::filter);
        assert(all.take(0).filter(pred) =~= Seq::empty());
        if all.len() > 0 {
            lemma_ascending_ids_bound(payment_ids(all), store@.last_payment_id, 0);
        }
    }
    while k < store.payments.len()
        invariant
            k <= store.payments.len() <= 0x7fff_ffff,
            all == views(store.payments@),
            pred == payment_selected(customer, window_view(*window)),
            amount == payment_amount(),
            total == sum_of(all.take(k as int).filter(pred).map_values(amount)),
            -(k * 0x8000_0000_0000_0000) <= total <= k * 0x8000_0000_0000_0000,
        decreases store.payments.len() - k,
    {
        let p = &store.payments[k];
        proof {
            lemma_filter_step(all, k as int, pred);
        }
        if picks_payment(p, customer, window) {
            let ghost sel = all.take(k as int).filter(pred);
            total = total + p.amount as i128;
            proof {
                assert(sel.push(p@).map_values(amount) =~= sel.map_values(amount).push(amount(p@)));
                lemma_sum_push(sel.map_values(amount), amount(p@));
            }
        }
        k += 1;
    }
    proof {
        assert(all.take(k as int) =~= all);
    }
    total
}

fn matches_debtor(c: &Customer, needle: &Option<Vec<char>>) -> (r: bool)
    ensures
        r == debtor_matches(c@, opt_chars(*needle)),
{
    match needle {
        None => true,
        Some(q) => holds(&c.name, q) || holds(&c.phone, q) || opt_holds(&c.notes, q),
    }
}

/// Lists what each customer owes: the sum of its invoices, the sum of its
/// payments and the difference, the largest debt first, equal debts in the
/// order of the customers' identifiers. Customers that owe exactly nothing
/// are left out unless `have_zero` is `Some(true)`. With a search text only
/// the customers whose name, phone or notes hold it are listed.
pub fn get_all_debts(
    store: &Store,
    have_zero: Option<bool>,
    search_query: Option<String>,
) -> (r: Vec<CustomerDebt>)
    ensures
        views(r@) == store@.debts_listed(have_zero == Some(true), opt_text(search_query)),
{
    let include_zero: bool = match have_zero {
        Some(b) => b,
        None => false,
    };
    let needle = chars_of(&search_query);
    let ghost sv = store@;
    let ghost all = sv.customers;
    let ghost pred = sv.debtor_selected(include_zero, opt_text(search_query));
    let ghost make = sv.debt_of();
    let ghost key = sv.debt_key();
    let mut hits: Vec<CustomerDebt> = Vec::new();
    let mut keys: Vec<SortKey> = Vec::new();
    let mut k: usize = 0;
    proof {
        use_type_invariant(store);
        reveal(Seq::filter);
        assert(all.take(0).filter(pred) =~= Seq::empty());
    }
    while k < store.customers.len()
        invariant
            k <= store.customers.len(),
            sv == store@,
            sv.wf(),
            all == views(store.customers@),
            pred == sv.debtor_selected(include_zero, opt_text(search_query)),
            make == sv.debt_of(),
            key == sv.debt_key(),
            opt_chars(needle) == opt_text(search_query),
            hits.len() == keys.len(),
            views(hits@) =~= all.take(k as int).filter(pred).map_values(make),
            key_views(keys@) =~= all.take(k as int).filter(pred).map_values(key),
        decreases store.customers.len() - k,
    {
        let c = &store.customers[k];
        proof {
            lemma_filter_step(all, k as int, pred);
            assert(customer_ids(all)[k as int] == all[k as int].id);
        }
        if matches_debtor(c, &needle) {
            let billed = invoice_sum(store, c.id, &None);
            let paid = payment_sum(store, c.id, &None);
            let debt: i128 = billed - paid;
            if include_zero || debt != 0 {
                let ghost sel = all.take(k as int).filter(pred);
                let ghost hits_before = hits@;
                let ghost keys_before = keys@;
                let row = CustomerDebt {
                    id: match c.id {
                        Some(i) => i,
                        None => 0,
                    },
                    name: c.name.clone(),
                    phone: c.phone.clone(),
                    total_debt: debt,
                    total_payments: paid,
                    total_invoices: billed,
                };
                let key_k = SortKey::Number(debt);
                hits.push(row);
                keys.push(key_k);
                proof {
                    assert(views(hits@) =~= views(hits_before).push(row@));
                    assert(key_views(keys@) =~= key_views(keys_before).push(key_k@));
                    assert(sel.push(c@).map_values(make) =~= sel.map_values(make).push(make(c@)));
                    assert(sel.push(c@).map_values(key) =~= sel.map_values(key).push(key(c@)));
                }
            }
        }
        k += 1;
    }
    proof {
        assert(all.take(k as int) =~= all);
    }
    let out = listed(&hits, &keys, true, None, None);
    out
}

/// What the customer `customer_id` owes on its invoices, going by their
/// status: an `unpaid` invoice counts with its total, a `partial` one with its
/// total less the amount recorded as paid, any other with nothing. A customer
/// without invoices owes 0.
pub fn get_customer_debt(store: &Store, customer_id: i32) -> (r: i128)
    ensures
        r == store@.owed_by(customer_id),
{
    let unpaid = "unpaid".to_owned();
    let partial = "partial".to_owned();
    let ghost all = store@.invoices;
    let ghost pred = invoice_selected(Some(customer_id), None);
    let ghost amount = owed_on();
    let mut total: i128 = 0;
    let mut k: usize = 0;
    proof {
        use_type_invariant(store);
        reveal(Seq::filter);
        assert(all.take(0).filter(pred) =~= Seq::empty());
        if all.len() > 0 {
            lemma_ascending_ids_bound(invoice_ids(all), store@.last_invoice_id, 0);
        }
    }
    while k < store.invoices.len()
        invariant
            k <= store.invoices.len() <= 0x7fff_ffff,
            all == views(store.invoices@),
            pred == invoice_selected(Some(customer_id), None),
            amount == owed_on(),
            unpaid@ == "unpaid"@,
            partial@ == "partial"@,
            total == sum_of(all.take(k as int).filter(pred).map_values(amount)),
            -(k * 0x1_0000_0000_0000_0000) <= total <= k * 0x1_0000_0000_0000_0000,
        decreases store.invoices.len() - k,
    {
        let v = &store.invoices[k];
        proof {
            lemma_filter_step(all, k as int, pred);
        }
        if v.customer_id == customer_id {
            let ghost sel = all.take(k as int).filter(pred);
            let owed: i128 = match &v.status {
                Some(s) => {
                    if *s == unpaid {
                        v.total as i128
                    } else if *s == partial {
                        v.total as i128 - match v.paid_amount {
                            Some(p) => p as i128,
                            None => 0,
                        }
                    } else {
                        0
                    }
                },
                None => 0,
            };
            total = total + owed;
            proof {
                assert(owed == amount(v@));
                assert(sel.push(v@).map_values(amount) =~= sel.map_values(amount).push(amount(v@)));
                lemma_sum_push(sel.map_values(amount), amount(v@));
            }
        }
        k += 1;
    }
    proof {
        assert(all.take(k as int) =~= all);
    }
    total
}

/// The totals over the whole store: the sum of all invoice totals, the sum of
/// all payment amounts, the difference between the two, and the number of
/// customers.
pub fn get_report_summary(store: &Store) -> (r: ReportSummary)
    ensures
        r.total_invoices == store@.invoice_sum(None, None),
        r.total_payments == store@.payment_sum(None, None),
        r.total_debts == store@.invoice_sum(None, None) - store@.payment_sum(None, None),
        r.customer_count == store@.customers.len(),
{
    let total_invoices = invoice_sum(store, None, &None);
    let total_payments = payment_sum(store, None, &None);
    proof {
        use_type_invariant(store);
        if store@.customers.len() > 0 {
            lemma_ascending_ids_bound(customer_ids(store@.customers), store@.last_customer_id, 0);
        }
    }
    ReportSummary {
        total_invoices,
        total_payments,
        total_debts: total_invoices - total_payments,
        customer_count: store.customers.len() as i32,
    }
}

fn line_of_invoice(c: &Customer, v: &Invoice) -> (r: Transaction)
    requires
        v.id is Some,
        v.created_at is Some,
    ensures
        r@ == invoice_line(c@)(v@),
{
    Transaction {
        record_id: match v.id {
            Some(i) => i,
            None => 0,
        },
        transaction_type: "invoice".to_owned(),
        reference: Some(v.invoice_number.clone()),
        customer_id: v.customer_id,
        customer_name: c.name.clone(),
        customer_phone: c.phone.clone(),
        date: v.date.clone(),
        amount: v.total,
        created_at: match &v.created_at {
            Some(t) => t.clone(),
            None => String::new(),
        },
    }
}

fn line_of_payment(c: &Customer, p: &Payment) -> (r: Transaction)
    requires
        p.id is Some,
        p.created_at is Some,
    ensures
        r@ == payment_line(c@)(p@),
{
    Transaction {
        record_id: match p.id {
            Some(i) => i,
            None => 0,
        },
        transaction_type: "payment".to_owned(),
        reference: None,
        customer_id: p.customer_id,
        customer_name: c.name.clone(),
        customer_phone: c.phone.clone(),
        date: p.date.clone(),
        amount: p.amount,
        created_at: match &p.created_at {
            Some(t) => t.clone(),
            None => String::new(),
        },
    }
}

fn ledger(
    store: &Store,
    c: &Customer,
    customer_id: i32,
    window: &Option<(Vec<char>, Vec<char>)>,
) -> (r: Vec<Transaction>)
    requires
        window is Some,
    ensures
        views(r@) == arrange(
            store@.invoices.filter(
                invoice_selected(Some(customer_id), window_view(*window)),
            ).map_values(invoice_line(c@)) + store@.payments.filter(
                payment_selected(Some(customer_id), window_view(*window)),
            ).map_values(payment_line(c@)),
            store@.invoices.filter(
                invoice_selected(Some(customer_id), window_view(*window)),
            ).map_values(invoice_date_key()) + store@.payments.filter(
                payment_selected(Some(customer_id), window_view(*window)),
            ).map_values(payment_date_key()),
            false,
        ),
{
    let ghost sv = store@;
    let ghost bills = sv.invoices;
    let ghost pays = sv.payments;
    let ghost pick_bill = invoice_selected(Some(customer_id), window_view(*window));
    let ghost pick_pay = payment_selected(Some(customer_id), window_view(*window));
    let ghost bill_line = invoice_line(c@);
    let ghost pay_line = payment_line(c@);
    let ghost bill_key = invoice_date_key();
    let ghost pay_key = payment_date_key();
    let mut hits: Vec<Transaction> = Vec::new();
    let mut keys: Vec<SortKey> = Vec::new();
    let mut k: usize = 0;
    proof {
        use_type_invariant(store);
        reveal(Seq::filter);
        assert(bills.take(0).filter(pick_bill) =~= Seq::empty());
        assert(pays.take(0).filter(pick_pay) =~= Seq::empty());
    }
    while k < store.invoices.len()
        invariant
            k <= store.invoices.len(),
            sv == store@,
            sv.wf(),
            bills == views(store.invoices@),
            pick_bill == invoice_selected(Some(customer_id), window_view(*window)),
            bill_line == invoice_line(c@),
            bill_key == invoice_date_key(),
            hits.len() == keys.len(),
            views(hits@) =~= bills.take(k as int).filter(pick_bill).map_values(bill_line),
            key_views(keys@) =~= bills.take(k as int).filter(pick_bill).map_values(bill_key),
        decreases store.invoices.len() - k,
    {
        let v = &store.invoices[k];
        proof {
            lemma_filter_step(bills, k as int, pick_bill);
            assert(invoice_ids(bills)[k as int] == bills[k as int].id);
            assert(crate::store::invoice_stored(bills[k as int]));
        }
        if picks_invoice(v, Some(customer_id), window) {
            let ghost sel = bills.take(k as int).filter(pick_bill);
            let ghost hits_before = hits@;
            let ghost keys_before = keys@;
            let row = line_of_invoice(c, v);
            let key_k = SortKey::Text(to_chars(v.date.as_str()));
            hits.push(row);
            keys.push(key_k);
            proof {
                assert(views(hits@) =~= views(hits_before).push(row@));
                assert(key_views(keys@) =~= key_views(keys_before).push(key_k@));
                assert(sel.push(v@).map_values(bill_line) =~= sel.map_values(bill_line).push(
                    bill_line(v@),
                ));
                assert(sel.push(v@).map_values(bill_key) =~= sel.map_values(bill_key).push(
                    bill_key(v@),
                ));
            }
        }
        k += 1;
    }
    proof {
        assert(bills.take(k as int) =~= bills);
    }
    let ghost bill_rows = bills.filter(pick_bill).map_values(bill_line);
    let ghost bill_keys = bills.filter(pick_bill).map_values(bill_key);
    let mut j: usize = 0;
    while j < store.payments.len()
        invariant
            j <= store.payments.len(),
            sv == store@,
            sv.wf(),
            pays == views(store.payments@),
            pick_pay == payment_selected(Some(customer_id), window_view(*window)),
            pay_line == payment_line(c@),
            pay_key == payment_date_key(),
            hits.len() == keys.len(),
            views(hits@) =~= bill_rows + pays.take(j as int).filter(pick_pay).map_values(pay_line),
            key_views(keys@) =~= bill_keys + pays.take(j as int).filter(pick_pay).map_values(
                pay_key,
            ),
        decreases store.payments.len() - j,
    {
        let p = &store.payments[j];
        proof {
            lemma_filter_step(pays, j as int, pick_pay);
            assert(payment_ids(pays)[j as int] == pays[j as int].id);
            assert(crate::store::payment_stored(pays[j as int]));
        }
        if picks_payment(p, Some(customer_id), window) {
            let ghost sel = pays.take(j as int).filter(pick_pay);
            let ghost hits_before = hits@;
            let ghost keys_before = keys@;
            let row = line_of_payment(c, p);
            let key_j = SortKey::Text(to_chars(p.date.as_str()));
            hits.push(row);
            keys.push(key_j);
            proof {
                assert(views(hits@) =~= views(hits_before).push(row@));
                assert(key_views(keys@) =~= key_views(keys_before).push(key_j@));
                assert(sel.push(p@).map_values(pay_line) =~= sel.map_values(pay_line).push(
                    pay_line(p@),
                ));
                assert(sel.push(p@).map_values(pay_key) =~= sel.map_values(pay_key).push(
                    pay_key(p@),
                ));
            }
        }
        j += 1;
    }
    proof {
        assert(pays.take(j as int) =~= pays);
    }
    let out = listed(&hits, &keys, false, None, None);
    out
}

/// The ledger of the customer `customer_id` from `from_date` to `to_date`,
/// both included, or to the end of the year 9999 where `to_date` is missing:
/// its invoices and payments dated within that span, earliest date first, on
/// one date the invoices before the payments and each kind in the order of
/// its identifiers. Dates compare as texts. With the ledger come the sum of
/// the invoices and the sum of the payments of that span and the difference
/// between them; they are taken from the tables themselves, also where the
/// customer is no longer stored and the ledger is therefore empty.
pub fn get_transactions(
    store: &Store,
    customer_id: i32,
    from_date: String,
    to_date: Option<String>,
) -> (r: TransactionsResponse)
    ensures
        r@ == store@.transactions(customer_id, from_date@, opt_text(to_date)),
{
    let from = to_chars(from_date.as_str());
    let end = match &to_date {
        Some(t) => to_chars(t.as_str()),
        None => to_chars("9999-12-31"),
    };
    let window = Some((from, end));
    let total_invoices = invoice_sum(store, Some(customer_id), &window);
    let total_payments = payment_sum(store, Some(customer_id), &window);
    let data = match customer_of(store, customer_id) {
        Some(c) => ledger(store, c, customer_id, &window),
        None => {
            let none: Vec<Transaction> = Vec::new();
            assert(views(none@) =~= Seq::empty());
            none
        },
    };
    TransactionsResponse {
        data,
        total_invoices,
        total_payments,
        remaining_total: total_invoices - total_payments,
    }
}

/// A customer that has neither invoices nor payments owes nothing, going by
/// the status of its invoices or by the difference of invoices and payments.
pub proof fn lemma_no_records_no_debt(s: StoreView, customer_id: i32)
    requires
        forall|i: int|
            0 <= i < s.invoices.len() ==> (#[trigger] s.invoices[i]).customer_id != customer_id,
        forall|i: int|
            0 <= i < s.payments.len() ==> (#[trigger] s.payments[i]).customer_id != customer_id,
    ensures
        s.owed_by(customer_id) == 0,
        s.invoice_sum(Some(customer_id), None) == 0,
        s.payment_sum(Some(customer_id), None) == 0,
{
    lemma_filter_none(s.invoices, invoice_selected(Some(customer_id), None));
    lemma_filter_none(s.payments, payment_selected(Some(customer_id), None));
    assert(Seq::<InvoiceView>::empty().map_values(owed_on()) =~= Seq::empty());
    assert(Seq::<InvoiceView>::empty().map_values(invoice_total()) =~= Seq::empty());
    assert(Seq::<PaymentView>::empty().map_values(payment_amount()) =~= Seq::empty());
}

/// The list of debts holds one row for each customer shown and no other row:
/// every row is the debt of a customer shown, the debt of every customer shown
/// is a row, and no two rows carry the same customer.
pub proof fn lemma_debts_rows(s: StoreView, include_zero: bool, search: Option<Seq<char>>)
    requires
        s.wf(),
    ensures
        ({
            let shown = s.customers.filter(s.debtor_selected(include_zero, search));
            let debts = shown.map_values(s.debt_of());
            let rows = s.debts_listed(include_zero, search);
            &&& rows.len() == shown.len()
            &&& forall|j: int| 0 <= j < rows.len() ==> debts.contains(#[trigger] rows[j])
            &&& forall|m: int| 0 <= m < debts.len() ==> rows.contains(#[trigger] debts[m])
            &&& forall|i: int, j: int|
                0 <= i < j < rows.len() ==> (#[trigger] rows[i]).id != (#[trigger] rows[j]).id
        }),
{
    let sel = s.debtor_selected(include_zero, search);
    let shown = s.customers.filter(sel);
    let keys = shown.map_values(s.debt_key());
    let debts = shown.map_values(s.debt_of());
    let ord = ordering(keys, true);
    let rows = s.debts_listed(include_zero, search);
    let id_of = |c: CustomerView| c.id;
    lemma_ordering_permutes(keys, true);
    assert(s.customers.map_values(id_of) =~= customer_ids(s.customers));
    crate::listing::lemma_filter_keeps_ascent(s.customers, sel, id_of, s.last_customer_id);
    let sids = shown.map_values(id_of);
    assert(rows.len() == shown.len());
    assert forall|j: int| 0 <= j < rows.len() implies debts.contains(#[trigger] rows[j]) by {
        assert(ord.contains(ord[j]));
        assert(rows[j] == debts[ord[j]]);
    }
    assert forall|m: int| 0 <= m < debts.len() implies rows.contains(#[trigger] debts[m]) by {
        assert(ord.contains(m));
        let j = choose|j: int| 0 <= j < ord.len() && ord[j] == m;
        assert(rows[j] == debts[m]);
    }
    assert forall|i: int, j: int| 0 <= i < j < rows.len() implies (#[trigger] rows[i]).id != (
    #[trigger] rows[j]).id by {
        assert(ord.contains(ord[i]) && ord.contains(ord[j]));
        assert(ord[i] != ord[j]);
        assert(rows[i] == debts[ord[i]] && rows[j] == debts[ord[j]]);
        assert(sids[ord[i]] == shown[ord[i]].id);
        assert(sids[ord[j]] == shown[ord[j]].id);
        if ord[i] < ord[j] {
            assert(sids[ord[i]]->0 < sids[ord[j]]->0);
        } else {
            assert(sids[ord[j]]->0 < sids[ord[i]]->0);
        }
    }
}

/// Asked for all debts, zero or not, the list holds exactly one row for each
/// customer: as many rows as customers, among them the row of every customer,
/// whose debt is the sum of the customer's invoice totals less the sum of its
/// payment amounts, and no two rows for one customer.
pub proof fn lemma_all_debts_one_row_per_customer(s: StoreView)
    requires
        s.wf(),
    ensures
        ({
            let rows = s.debts_listed(true, None);
            &&& rows.len() == s.customers.len()
            &&& forall|i: int|
                0 <= i < s.customers.len() ==> rows.contains(
                    s.debt_of()(#[trigger] s.customers[i]),
                )
            &&& forall|i: int|
                0 <= i < s.customers.len() ==> s.debt_of()(#[trigger] s.customers[i]).total_debt
                    == s.invoice_sum(s.customers[i].id, None) - s.payment_sum(
                    s.customers[i].id,
                    None,
                )
            &&& forall|i: int, j: int|
                0 <= i < j < rows.len() ==> (#[trigger] rows[i]).id != (#[trigger] rows[j]).id
        }),
{
    let sel = s.debtor_selected(true, None);
    let rows = s.debts_listed(true, None);
    lemma_filter_keeps_all(s.customers, sel);
    lemma_debts_rows(s, true, None);
    let debts = s.customers.map_values(s.debt_of());
    assert forall|i: int| 0 <= i < s.customers.len() implies rows.contains(
        s.debt_of()(#[trigger] s.customers[i]),
    ) by {
        assert(debts[i] == s.debt_of()(s.customers[i]));
    }
}

/// Asked for the debts that are not zero, the list leaves out exactly the
/// customers whose debt is zero: a customer has a row if and only if its
/// invoices and its payments differ.
pub proof fn lemma_zero_debts_left_out(s: StoreView, i: int)
    requires
        s.wf(),
        0 <= i < s.customers.len(),
    ensures
        ({
            let rows = s.debts_listed(false, None);
            let c = s.customers[i];
            let listed = exists|j: int| 0 <= j < rows.len() && (#[trigger] rows[j]).id == c.id->0;
            listed <==> s.invoice_sum(c.id, None) - s.payment_sum(c.id, None) != 0
        }),
{
    let sel = s.debtor_selected(false, None);
    let shown = s.customers.filter(sel);
    let debts = shown.map_values(s.debt_of());
    let rows = s.debts_listed(false, None);
    let c = s.customers[i];
    let ids = customer_ids(s.customers);
    lemma_debts_rows(s, false, None);
    if s.invoice_sum(c.id, None) - s.payment_sum(c.id, None) != 0 {
        assert(sel(c));
        s.customers.lemma_filter_contains(sel, i);
        let m = choose|m: int| 0 <= m < shown.len() && shown[m] == c;
        assert(debts[m] == s.debt_of()(c));
        assert(rows.contains(debts[m]));
        let j = choose|j: int| 0 <= j < rows.len() && rows[j] == debts[m];
        assert(rows[j].id == c.id->0);
    }
    if exists|j: int| 0 <= j < rows.len() && (#[trigger] rows[j]).id == c.id->0 {
        let j = choose|j: int| 0 <= j < rows.len() && (#[trigger] rows[j]).id == c.id->0;
        assert(debts.contains(rows[j]));
        let m = choose|m: int| 0 <= m < debts.len() && debts[m] == rows[j];
        s.customers.lemma_filter_pred(sel, m);
        assert(shown.contains(shown[m]));
        s.customers.lemma_filter_contains_rev(sel, shown[m]);
        let k = choose|k: int| 0 <= k < s.customers.len() && s.customers[k] == shown[m];
        assert(ids[k] == s.customers[k].id);
        assert(ids[i] == c.id);
        if k < i {
            assert(ids[k]->0 < ids[i]->0);
        } else if i < k {
            assert(ids[i]->0 < ids[k]->0);
        }
        assert(k == i);
    }
}

/// The ledger lines that stand for invoices.
pub open spec fn is_invoice_line() -> spec_fn(TransactionView) -> bool {
    |t: TransactionView| t.transaction_type == "invoice"@
}

/// The ledger lines that stand for payments.
pub open spec fn is_payment_line() -> spec_fn(TransactionView) -> bool {
    |t: TransactionView| t.transaction_type == "payment"@
}

/// The amount of a ledger line.
pub open spec fn line_amount() -> spec_fn(TransactionView) -> int {
    |t: TransactionView| t.amount
}

/// The sums that come with a ledger agree with its lines: for a customer that
/// the store holds, the sum of the invoices is the sum of the amounts of the
/// invoice lines, the sum of the payments is the sum of the amounts of the
/// payment lines, and what remains is the difference of the two.
pub proof fn lemma_ledger_sums_agree(
    s: StoreView,
    customer_id: i32,
    from: Seq<char>,
    to: Option<Seq<char>>,
)
    requires
        s.customer(customer_id) is Some,
    ensures
        ({
            let r = s.transactions(customer_id, from, to);
            &&& sum_of(r.data.filter(is_invoice_line()).map_values(line_amount()))
                == r.total_invoices
            &&& sum_of(r.data.filter(is_payment_line()).map_values(line_amount()))
                == r.total_payments
            &&& r.remaining_total == r.total_invoices - r.total_payments
        }),
{
    let c = s.customer(customer_id)->0;
    let end = if to is Some { to->0 } else { far_future() };
    let window = Some((from, end));
    let billed = s.invoices.filter(invoice_selected(Some(customer_id), window));
    let paid = s.payments.filter(payment_selected(Some(customer_id), window));
    let bills = billed.map_values(invoice_line(c));
    let pays = paid.map_values(payment_line(c));
    let keys = billed.map_values(invoice_date_key()) + paid.map_values(payment_date_key());
    let amount = line_amount();
    reveal_strlit("invoice");
    reveal_strlit("payment");
    assert("invoice"@[0] == 'i' && "payment"@[0] == 'p');
    assert("invoice"@ != "payment"@);

    lemma_sum_of_arranged(bills + pays, keys, false, is_invoice_line(), amount);
    vstd::seq::Seq::filter_distributes_over_add(bills, pays, is_invoice_line());
    lemma_filter_keeps_all(bills, is_invoice_line());
    lemma_filter_none(pays, is_invoice_line());
    assert(bills + Seq::<TransactionView>::empty() =~= bills);
    assert(bills.map_values(amount) =~= billed.map_values(invoice_total()));

    lemma_sum_of_arranged(bills + pays, keys, false, is_payment_line(), amount);
    vstd::seq::Seq::filter_distributes_over_add(bills, pays, is_payment_line());
    lemma_filter_none(bills, is_payment_line());
    lemma_filter_keeps_all(pays, is_payment_line());
    assert(Seq::<TransactionView>::empty() + pays =~= pays);
    assert(pays.map_values(amount) =~= paid.map_values(payment_amount()));
}

} // verus!
