//! The store: four tables held in memory, each in the order of its
//! identifiers.

use vstd::prelude::*;
use crate::models::{Customer, CustomerView, Invoice, InvoiceView, InvoiceItem, InvoiceItemView,
    Payment, PaymentView, views};

verus! {

/// The tables of customers, invoices, invoice items and payments.
///
/// The store assigns identifiers itself, counting up from 1 in each table, and
/// never hands one out twice: it remembers the last one it gave, also after
/// the record that carried it is deleted.
pub struct Store {
    pub(crate) customers: Vec<Customer>,
    pub(crate) invoices: Vec<Invoice>,
    pub(crate) items: Vec<InvoiceItem>,
    pub(crate) payments: Vec<Payment>,
    pub(crate) last_customer_id: i32,
    pub(crate) last_invoice_id: i32,
    pub(crate) last_item_id: i32,
    pub(crate) last_payment_id: i32,
}

/// The contents of a [`Store`].
pub struct StoreView {
    pub customers: Seq<CustomerView>,
    pub invoices: Seq<InvoiceView>,
    pub items: Seq<InvoiceItemView>,
    pub payments: Seq<PaymentView>,
    pub last_customer_id: int,
    pub last_invoice_id: int,
    pub last_item_id: int,
    pub last_payment_id: int,
}

/// Every identifier is present and lies between 1 and `last`, and the
/// identifiers grow strictly along the table.
pub open spec fn ids_ascend(ids: Seq<Option<i32>>, last: int) -> bool {
    &&& forall|i: int| 0 <= i < ids.len() ==> (#[trigger] ids[i]) is Some && 1 <= ids[i]->0 <= last
    &&& forall|i: int, j: int|
        0 <= i < j < ids.len() ==> (#[trigger] ids[i])->0 < (#[trigger] ids[j])->0
}

/// The identifiers of a table of customers.
pub open spec fn customer_ids(rows: Seq<CustomerView>) -> Seq<Option<i32>> {
    rows.map_values(|r: CustomerView| r.id)
}

/// The identifiers of a table of invoices.
pub open spec fn invoice_ids(rows: Seq<InvoiceView>) -> Seq<Option<i32>> {
    rows.map_values(|r: InvoiceView| r.id)
}

/// The identifiers of a table of invoice items.
pub open spec fn item_ids(rows: Seq<InvoiceItemView>) -> Seq<Option<i32>> {
    rows.map_values(|r: InvoiceItemView| r.id)
}

/// The identifiers of a table of payments.
pub open spec fn payment_ids(rows: Seq<PaymentView>) -> Seq<Option<i32>> {
    rows.map_values(|r: PaymentView| r.id)
}

/// A stored customer carries the time it was taken in.
pub open spec fn customer_stored(c: CustomerView) -> bool {
    c.created_at is Some
}

/// A stored invoice carries the time it was taken in and none of the fields
/// that listings compute.
pub open spec fn invoice_stored(v: InvoiceView) -> bool {
    &&& v.created_at is Some
    &&& v.customer_name is None
    &&& v.remaining_amount is None
}

/// A stored payment carries the time it was taken in and none of the fields
/// that listings compute.
pub open spec fn payment_stored(p: PaymentView) -> bool {
    &&& p.created_at is Some
    &&& p.customer_name is None
    &&& p.invoice_number is None
}

/// No two invoices carry the same invoice number.
pub open spec fn numbers_distinct(rows: Seq<InvoiceView>) -> bool {
    forall|i: int, j: int|
        0 <= i < j < rows.len() ==> (#[trigger] rows[i]).invoice_number != (
        #[trigger] rows[j]).invoice_number
}

impl StoreView {
    /// What holds of the contents of every store.
    pub open spec fn wf(self) -> bool {
        &&& 0 <= self.last_customer_id <= i32::MAX
        &&& 0 <= self.last_invoice_id <= i32::MAX
        &&& 0 <= self.last_item_id <= i32::MAX
        &&& 0 <= self.last_payment_id <= i32::MAX
        &&& ids_ascend(customer_ids(self.customers), self.last_customer_id)
        &&& ids_ascend(invoice_ids(self.invoices), self.last_invoice_id)
        &&& ids_ascend(item_ids(self.items), self.last_item_id)
        &&& ids_ascend(payment_ids(self.payments), self.last_payment_id)
        &&& forall|i: int|
            0 <= i < self.customers.len() ==> customer_stored(#[trigger] self.customers[i])
        &&& forall|i: int|
            0 <= i < self.invoices.len() ==> invoice_stored(#[trigger] self.invoices[i])
        &&& forall|i: int|
            0 <= i < self.payments.len() ==> payment_stored(#[trigger] self.payments[i])
        &&& numbers_distinct(self.invoices)
    }

    /// The store with each count of identifiers raised to the number given
    /// where that is higher.
    pub open spec fn with_last_ids_raised(
        self,
        customers: int,
        invoices: int,
        items: int,
        payments: int,
    ) -> StoreView {
        StoreView {
            last_customer_id: if customers > self.last_customer_id {
                customers
            } else {
                self.last_customer_id
            },
            last_invoice_id: if invoices > self.last_invoice_id {
                invoices
            } else {
                self.last_invoice_id
            },
            last_item_id: if items > self.last_item_id { items } else { self.last_item_id },
            last_payment_id: if payments > self.last_payment_id {
                payments
            } else {
                self.last_payment_id
            },
            ..self
        }
    }

    /// The store that holds nothing and has assigned no identifier yet.
    pub open spec fn empty() -> StoreView {
        StoreView {
            customers: Seq::empty(),
            invoices: Seq::empty(),
            items: Seq::empty(),
            payments: Seq::empty(),
            last_customer_id: 0,
            last_invoice_id: 0,
            last_item_id: 0,
            last_payment_id: 0,
        }
    }
}

impl View for Store {
    type V = StoreView;

    open(crate) spec fn view(&self) -> StoreView {
        StoreView {
            customers: views(self.customers@),
            invoices: views(self.invoices@),
            items: views(self.items@),
            payments: views(self.payments@),
            last_customer_id: self.last_customer_id as int,
            last_invoice_id: self.last_invoice_id as int,
            last_item_id: self.last_item_id as int,
            last_payment_id: self.last_payment_id as int,
        }
    }
}

/// The position of the record with identifier `id`, if the table holds one.
pub open spec fn position_of(ids: Seq<Option<i32>>, id: i32) -> Option<int> {
    if exists|i: int| 0 <= i < ids.len() && ids[i] == Some(id) {
        Some(choose|i: int| 0 <= i < ids.len() && ids[i] == Some(id))
    } else {
        None
    }
}

/// The identifier after the last one assigned is carried by no record.
pub proof fn lemma_next_id_is_fresh(ids: Seq<Option<i32>>, last: int)
    requires
        ids_ascend(ids, last),
        last < i32::MAX,
    ensures
        forall|i: int| 0 <= i < ids.len() ==> (#[trigger] ids[i]) != Some((last + 1) as i32),
{
}

/// A table in ascending order holds at most `last` records: the record at
/// position `i` has an identifier above `i`.
pub proof fn lemma_ascending_ids_bound(ids: Seq<Option<i32>>, last: int, i: int)
    requires
        ids_ascend(ids, last),
        0 <= i < ids.len(),
    ensures
        ids[i]->0 >= i + 1,
        ids.len() <= last,
{
    lemma_ascending_from(ids, last, i);
    lemma_ascending_from(ids, last, ids.len() - 1);
}

proof fn lemma_ascending_from(ids: Seq<Option<i32>>, last: int, i: int)
    requires
        ids_ascend(ids, last),
        0 <= i < ids.len(),
    ensures
        ids[i]->0 >= i + 1,
    decreases i,
{
    if i > 0 {
        lemma_ascending_from(ids, last, i - 1);
        assert(ids[i - 1]->0 < ids[i]->0);
    }
}

/// A record that a table keeps under an identifier.
pub trait Stored: Sized {
    /// The identifier of the record.
    spec fn stored_id(&self) -> Option<i32>;

    /// The identifier of the record.
    fn id_of(&self) -> (r: Option<i32>)
        ensures
            r == self.stored_id(),
    ;
}

impl Stored for Customer {
    open spec fn stored_id(&self) -> Option<i32> {
        self.id
    }

    fn id_of(&self) -> (r: Option<i32>) {
        self.id
    }
}

impl Stored for Invoice {
    open spec fn stored_id(&self) -> Option<i32> {
        self.id
    }

    fn id_of(&self) -> (r: Option<i32>) {
        self.id
    }
}

impl Stored for InvoiceItem {
    open spec fn stored_id(&self) -> Option<i32> {
        self.id
    }

    fn id_of(&self) -> (r: Option<i32>) {
        self.id
    }
}

impl Stored for Payment {
    open spec fn stored_id(&self) -> Option<i32> {
        self.id
    }

    fn id_of(&self) -> (r: Option<i32>) {
        self.id
    }
}

/// The identifiers of a table of records.
pub open spec fn stored_ids<T: Stored>(rows: Seq<T>) -> Seq<Option<i32>> {
    rows.map_values(|r: T| r.stored_id())
}

/// In a table in ascending order, the position that holds `id` is the only one.
pub proof fn lemma_position_unique(ids: Seq<Option<i32>>, last: int, id: i32, p: int)
    requires
        ids_ascend(ids, last),
        0 <= p < ids.len(),
        ids[p] == Some(id),
    ensures
        position_of(ids, id) == Some(p),
{
    let q = choose|i: int| 0 <= i < ids.len() && ids[i] == Some(id);
    if q < p {
        assert(ids[q]->0 < ids[p]->0);
    } else if p < q {
        assert(ids[p]->0 < ids[q]->0);
    }
}

/// Finds the record with identifier `id` in a table in ascending order, by
/// halving the span in which it can lie.
pub fn find<T: Stored>(rows: &Vec<T>, id: i32) -> (r: Option<usize>)
    requires
        ids_ascend(stored_ids(rows@), i32::MAX as int),
    ensures
        match r {
            Some(p) => p < rows.len() && position_of(stored_ids(rows@), id) == Some(p as int),
            None => position_of(stored_ids(rows@), id) is None,
        },
{
    let ghost ids = stored_ids(rows@);
    let mut lo: usize = 0;
    let mut hi: usize = rows.len();
    while lo < hi
        invariant
            ids == stored_ids(rows@),
            ids_ascend(ids, i32::MAX as int),
            lo <= hi <= rows.len(),
            forall|i: int| 0 <= i < lo ==> (#[trigger] ids[i])->0 < id,
            forall|i: int| hi <= i < ids.len() ==> (#[trigger] ids[i])->0 > id,
        decreases hi - lo,
    {
        let mid: usize = lo + (hi - lo) / 2;
        let here: Option<i32> = rows[mid].id_of();
        assert(ids[mid as int] == here);
        match here {
            Some(v) => {
                if v == id {
                    proof {
                        lemma_position_unique(ids, i32::MAX as int, id, mid as int);
                    }
                    return Some(mid);
                } else if v < id {
                    assert forall|i: int| 0 <= i < mid + 1 implies (#[trigger] ids[i])->0 < id by {
                        if i < mid {
                            assert(ids[i]->0 < ids[mid as int]->0);
                        }
                    }
                    lo = mid + 1;
                } else {
                    assert forall|i: int| mid <= i < ids.len() implies (#[trigger] ids[i])->0
                        > id by {
                        if i > mid {
                            assert(ids[mid as int]->0 < ids[i]->0);
                        }
                    }
                    hi = mid;
                }
            },
            None => {
                return None;
            },
        }
    }
    assert forall|i: int| 0 <= i < ids.len() implies ids[i] != Some(id) by {
        if i < lo {
            assert(ids[i]->0 < id);
        } else {
            assert(ids[i]->0 > id);
        }
    }
    None
}

impl Store {
    /// The invariant of the type: the contents are well formed.
    #[verifier::type_invariant]
    pub open spec fn well_formed(&self) -> bool {
        self@.wf()
    }

    /// A store that holds nothing.
    pub fn new() -> (store: Store)
        ensures
            store@ == StoreView::empty(),
    {
        let store = Store {
            customers: Vec::new(),
            invoices: Vec::new(),
            items: Vec::new(),
            payments: Vec::new(),
            last_customer_id: 0,
            last_invoice_id: 0,
            last_item_id: 0,
            last_payment_id: 0,
        };
        assert(store@.customers =~= Seq::empty());
        assert(store@.invoices =~= Seq::empty());
        assert(store@.items =~= Seq::empty());
        assert(store@.payments =~= Seq::empty());
        store
    }
}

/// The identifier of the last record of a table, or 0 for an empty table.
pub open spec fn last_id(ids: Seq<Option<i32>>) -> int {
    if ids.len() > 0 && ids.last() is Some {
        ids.last()->0 as int
    } else {
        0
    }
}

/// The contents of a store made of the four tables, with the last identifier
/// of each table as the last one assigned.
pub open spec fn tables_view(
    customers: Seq<CustomerView>,
    invoices: Seq<InvoiceView>,
    items: Seq<InvoiceItemView>,
    payments: Seq<PaymentView>,
) -> StoreView {
    StoreView {
        customers,
        invoices,
        items,
        payments,
        last_customer_id: last_id(customer_ids(customers)),
        last_invoice_id: last_id(invoice_ids(invoices)),
        last_item_id: last_id(item_ids(items)),
        last_payment_id: last_id(payment_ids(payments)),
    }
}

fn ids_in_order<T: Stored>(rows: &Vec<T>) -> (r: Option<i32>)
    ensures
        match r {
            Some(last) => last == last_id(stored_ids(rows@)) && ids_ascend(
                stored_ids(rows@),
                last as int,
            ),
            None => !ids_ascend(stored_ids(rows@), last_id(stored_ids(rows@))),
        },
{
    let ghost ids = stored_ids(rows@);
    let mut last: i32 = 0;
    let mut k: usize = 0;
    while k < rows.len()
        invariant
            k <= rows.len(),
            ids == stored_ids(rows@),
            0 <= last,
            k == 0 ==> last == 0,
            k > 0 ==> ids[k - 1] == Some(last),
            forall|i: int| 0 <= i < k ==> (#[trigger] ids[i]) is Some && 1 <= ids[i]->0 <= last,
            forall|i: int, j: int|
                0 <= i < j < k ==> (#[trigger] ids[i])->0 < (#[trigger] ids[j])->0,
        decreases rows.len() - k,
    {
        let here = rows[k].id_of();
        assert(ids[k as int] == here);
        match here {
            Some(v) => {
                if v <= last {
                    proof {
                        if ids_ascend(ids, last_id(ids)) {
                            assert(ids[k as int] is Some && 1 <= ids[k as int]->0);
                            if k > 0 {
                                assert(ids[k - 1]->0 < ids[k as int]->0);
                            }
                        }
                    }
                    return None;
                }
                last = v;
            },
            None => {
                proof {
                    if ids_ascend(ids, last_id(ids)) {
                        assert(ids[k as int] is Some);
                    }
                }
                return None;
            },
        }
        k += 1;
    }
    proof {
        if ids.len() > 0 {
            assert(ids.last() == ids[k - 1]);
        }
    }
    Some(last)
}

fn customers_complete(rows: &Vec<Customer>) -> (r: bool)
    ensures
        r == forall|i: int| 0 <= i < rows@.len() ==> customer_stored(#[trigger] views(rows@)[i]),
{
    let mut k: usize = 0;
    while k < rows.len()
        invariant
            k <= rows.len(),
            forall|i: int| 0 <= i < k ==> customer_stored(#[trigger] views(rows@)[i]),
        decreases rows.len() - k,
    {
        if rows[k].created_at.is_none() {
            assert(!customer_stored(views(rows@)[k as int]));
            return false;
        }
        k += 1;
    }
    true
}

fn payments_complete(rows: &Vec<Payment>) -> (r: bool)
    ensures
        r == forall|i: int| 0 <= i < rows@.len() ==> payment_stored(#[trigger] views(rows@)[i]),
{
    let mut k: usize = 0;
    while k < rows.len()
        invariant
            k <= rows.len(),
            forall|i: int| 0 <= i < k ==> payment_stored(#[trigger] views(rows@)[i]),
        decreases rows.len() - k,
    {
        let p = &rows[k];
        if p.created_at.is_none() || p.customer_name.is_some() || p.invoice_number.is_some() {
            assert(!payment_stored(views(rows@)[k as int]));
            return false;
        }
        k += 1;
    }
    true
}

fn invoices_complete(rows: &Vec<Invoice>) -> (r: bool)
    ensures
        r == ((forall|i: int| 0 <= i < rows@.len() ==> invoice_stored(#[trigger] views(rows@)[i]))
            && numbers_distinct(views(rows@))),
{
    let ghost all = views(rows@);
    let mut k: usize = 0;
    while k < rows.len()
        invariant
            k <= rows.len(),
            all == views(rows@),
            forall|i: int| 0 <= i < k ==> invoice_stored(#[trigger] all[i]),
            forall|i: int, j: int|
                0 <= i < j < k ==> (#[trigger] all[i]).invoice_number != (
                #[trigger] all[j]).invoice_number,
        decreases rows.len() - k,
    {
        let v = &rows[k];
        if v.created_at.is_none() || v.customer_name.is_some() || v.remaining_amount.is_some() {
            assert(!invoice_stored(all[k as int]));
            return false;
        }
        let mut j: usize = 0;
        while j < k
            invariant
                j <= k < rows.len(),
                all == views(rows@),
                forall|i: int|
                    0 <= i < j ==> (#[trigger] all[i]).invoice_number != views(
                        rows@,
                    )[k as int].invoice_number,
            decreases k - j,
        {
            if rows[j].invoice_number == rows[k].invoice_number {
                assert(all[j as int].invoice_number == all[k as int].invoice_number);
                return false;
            }
            j += 1;
        }
        k += 1;
    }
    true
}

impl Store {
    /// Makes a store of four tables read from elsewhere. In each table the
    /// last identifier counts as the last one assigned.
    ///
    /// Returns `None` where the tables are not well formed: an identifier is
    /// missing, below 1 or not above the one before it; a creation time is
    /// missing; a stored invoice or payment carries a field that only
    /// listings fill in; or two invoices carry one number.
    pub fn from_rows(
        customers: Vec<Customer>,
        invoices: Vec<Invoice>,
        items: Vec<InvoiceItem>,
        payments: Vec<Payment>,
    ) -> (r: Option<Store>)
        ensures
            match r {
                Some(store) => {
                    &&& store@ == tables_view(
                        views(customers@),
                        views(invoices@),
                        views(items@),
                        views(payments@),
                    )
                    &&& store@.wf()
                },
                None => !tables_view(
                    views(customers@),
                    views(invoices@),
                    views(items@),
                    views(payments@),
                ).wf(),
            },
    {
        proof {
            assert(stored_ids(customers@) =~= customer_ids(views(customers@)));
            assert(stored_ids(invoices@) =~= invoice_ids(views(invoices@)));
            assert(stored_ids(items@) =~= item_ids(views(items@)));
            assert(stored_ids(payments@) =~= payment_ids(views(payments@)));
        }
        let last_customer_id = match ids_in_order(&customers) {
            Some(v) => v,
            None => {
                return None;
            },
        };
        let last_invoice_id = match ids_in_order(&invoices) {
            Some(v) => v,
            None => {
                return None;
            },
        };
        let last_item_id = match ids_in_order(&items) {
            Some(v) => v,
            None => {
                return None;
            },
        };
        let last_payment_id = match ids_in_order(&payments) {
            Some(v) => v,
            None => {
                return None;
            },
        };
        if !customers_complete(&customers) || !invoices_complete(&invoices) || !payments_complete(
            &payments,
        ) {
            return None;
        }
        Some(
            Store {
                customers,
                invoices,
                items,
                payments,
                last_customer_id,
                last_invoice_id,
                last_item_id,
                last_payment_id,
            },
        )
    }

    /// The last identifiers assigned to customers, invoices, invoice items
    /// and payments, in that order; 0 where none was assigned yet.
    pub fn last_ids(&self) -> (r: (i32, i32, i32, i32))
        ensures
            r.0 == self@.last_customer_id,
            r.1 == self@.last_invoice_id,
            r.2 == self@.last_item_id,
            r.3 == self@.last_payment_id,
    {
        (self.last_customer_id, self.last_invoice_id, self.last_item_id, self.last_payment_id)
    }

    /// Tells the store which identifiers were assigned before, so that it
    /// does not hand them out again: each of its four counts is raised to the
    /// number given where that is higher. The tables stay as they are.
    pub fn raise_last_ids(&mut self, customers: i32, invoices: i32, items: i32, payments: i32)
        ensures
            final(self)@ == old(self)@.with_last_ids_raised(
                customers as int,
                invoices as int,
                items as int,
                payments as int,
            ),
    {
        proof {
            use_type_invariant(&*self);
        }
        if customers > self.last_customer_id {
            self.last_customer_id = customers;
        }
        if invoices > self.last_invoice_id {
            self.last_invoice_id = invoices;
        }
        if items > self.last_item_id {
            self.last_item_id = items;
        }
        if payments > self.last_payment_id {
            self.last_payment_id = payments;
        }
    }

    /// The table of customers, in the order of their identifiers.
    pub fn customers(&self) -> (r: &Vec<Customer>)
        ensures
            views(r@) == self@.customers,
    {
        &self.customers
    }

    /// The table of invoices, in the order of their identifiers.
    pub fn invoices(&self) -> (r: &Vec<Invoice>)
        ensures
            views(r@) == self@.invoices,
    {
        &self.invoices
    }

    /// The table of invoice items, in the order of their identifiers.
    pub fn items(&self) -> (r: &Vec<InvoiceItem>)
        ensures
            views(r@) == self@.items,
    {
        &self.items
    }

    /// The table of payments, in the order of their identifiers.
    pub fn payments(&self) -> (r: &Vec<Payment>)
        ensures
            views(r@) == self@.payments,
    {
        &self.payments
    }
}

/// Raising the counts of identifiers, to numbers that identifiers can take,
/// leaves the contents of the store well formed.
pub proof fn lemma_raised_last_ids_keep_wf(
    s: StoreView,
    customers: int,
    invoices: int,
    items: int,
    payments: int,
)
    requires
        s.wf(),
        customers <= i32::MAX,
        invoices <= i32::MAX,
        items <= i32::MAX,
        payments <= i32::MAX,
    ensures
        s.with_last_ids_raised(customers, invoices, items, payments).wf(),
{
}

/// The store that holds nothing is well formed.
pub proof fn lemma_empty_is_wf()
    ensures
        StoreView::empty().wf(),
{
}

} // verus!
