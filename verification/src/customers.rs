//! Customers: listing, lookup, creation, partial update, deletion.

use vstd::prelude::*;
use crate::clock::timestamp_now;
use crate::listing::{chars_of, holds, key_of_text, lemma_filter_removes_one, lemma_filter_keeps_all,
    lemma_filter_step, listed, opt_chars, opt_holds, opt_int32, text_key, widen};
use crate::models::{Customer, CustomerView, ErrorKind, views, opt_text, copy_opt_text};
use crate::order::{SortKey, arrange, key_views, page_of};
use crate::store::{Store, StoreView, customer_ids, position_of, find, stored_ids};
use crate::text::{contains_folded, text_lt};

verus! {

/// Whether a search selects the customer: every customer where there is no
/// search text, else those whose name, phone, address or notes hold the text,
/// ASCII case ignored.
pub open spec fn customer_matches(c: CustomerView, search: Option<Seq<char>>) -> bool {
    match search {
        None => true,
        Some(q) => {
            ||| contains_folded(c.name, q)
            ||| contains_folded(c.phone, q)
            ||| contains_folded(c.address, q)
            ||| (c.notes is Some && contains_folded(c.notes->0, q))
        },
    }
}

/// A customer with the given fields put in place of its own; a field that is
/// not given stays.
pub open spec fn patched_customer(
    c: CustomerView,
    name: Option<Seq<char>>,
    phone: Option<Seq<char>>,
    address: Option<Seq<char>>,
    notes: Option<Seq<char>>,
) -> CustomerView {
    CustomerView {
        id: c.id,
        name: if name is Some { name->0 } else { c.name },
        phone: if phone is Some { phone->0 } else { c.phone },
        address: if address is Some { address->0 } else { c.address },
        notes: if notes is Some { notes } else { c.notes },
        created_at: c.created_at,
    }
}

impl StoreView {
    /// The customer with identifier `id`, if there is one.
    pub open spec fn customer(self, id: i32) -> Option<CustomerView> {
        match position_of(customer_ids(self.customers), id) {
            Some(p) => Some(self.customers[p]),
            None => None,
        }
    }

    /// The customers that a search selects, in the order of the table.
    pub open spec fn customers_found(self, search: Option<Seq<char>>) -> Seq<CustomerView> {
        self.customers.filter(|c: CustomerView| customer_matches(c, search))
    }

    /// The listing of customers: those that the search selects, newest first
    /// by creation time, cut to the page asked for.
    pub open spec fn customers_listed(
        self,
        search: Option<Seq<char>>,
        page: Option<int>,
        size: Option<int>,
    ) -> Seq<CustomerView> {
        let found = self.customers_found(search);
        let keys = found.map_values(|c: CustomerView| text_key(c.created_at));
        page_of(arrange(found, keys, true), page, size)
    }

    /// The store without the customer `id`. Invoices and payments of that
    /// customer stay as they are.
    pub open spec fn without_customer(self, id: i32) -> StoreView {
        StoreView { customers: self.customers.filter(|c: CustomerView| c.id != Some(id)), ..self }
    }

    /// Whether the store can take another customer in.
    pub open spec fn has_room_for_customer(self) -> bool {
        self.last_customer_id < i32::MAX
    }

    /// The customer that the store makes of the given fields at time `now`.
    pub open spec fn new_customer(
        self,
        name: Seq<char>,
        phone: Seq<char>,
        address: Seq<char>,
        notes: Option<Seq<char>>,
        now: Seq<char>,
    ) -> CustomerView {
        CustomerView {
            id: Some((self.last_customer_id + 1) as i32),
            name,
            phone,
            address,
            notes,
            created_at: Some(now),
        }
    }

    /// The store with `c` added as its newest customer.
    pub open spec fn with_customer(self, c: CustomerView) -> StoreView {
        StoreView {
            customers: self.customers.push(c),
            last_customer_id: self.last_customer_id + 1,
            ..self
        }
    }

    /// The store with the given fields put into the customer `id`; every other
    /// customer stays as it is, and so does everything where no customer has
    /// that identifier.
    pub open spec fn with_customer_patched(
        self,
        id: i32,
        name: Option<Seq<char>>,
        phone: Option<Seq<char>>,
        address: Option<Seq<char>>,
        notes: Option<Seq<char>>,
    ) -> StoreView {
        StoreView {
            customers: self.customers.map_values(
                |c: CustomerView|
                    if c.id == Some(id) {
                        patched_customer(c, name, phone, address, notes)
                    } else {
                        c
                    },
            ),
            ..self
        }
    }
}

fn selects_customer(c: &Customer, needle: &Option<Vec<char>>) -> (r: bool)
    ensures
        r == customer_matches(c@, opt_chars(*needle)),
{
    match needle {
        None => true,
        Some(q) => holds(&c.name, q) || holds(&c.phone, q) || holds(&c.address, q) || opt_holds(
            &c.notes,
            q,
        ),
    }
}

/// Lists the customers that `search_query` selects, newest first, customers
/// created at the same time in the order of their identifiers. With both
/// `page` and `page_size` the listing is cut to that page, pages counted
/// from 1; with either missing it is returned whole.
pub fn get_all_customers(
    store: &Store,
    search_query: Option<String>,
    page: Option<i32>,
    page_size: Option<i32>,
) -> (r: Vec<Customer>)
    ensures
        views(r@) == store@.customers_listed(
            opt_text(search_query),
            opt_int32(page),
            opt_int32(page_size),
        ),
{
    let needle = chars_of(&search_query);
    let ghost all = store@.customers;
    let ghost pred = |c: CustomerView| customer_matches(c, opt_text(search_query));
    let ghost key = |c: CustomerView| text_key(c.created_at);
    let mut hits: Vec<Customer> = Vec::new();
    let mut keys: Vec<SortKey> = Vec::new();
    let mut k: usize = 0;
    proof {
        reveal(Seq::filter);
        assert(all.take(0).filter(pred) =~= Seq::empty());
    }
    while k < store.customers.len()
        invariant
            k <= store.customers.len(),
            all == views(store.customers@),
            pred == |c: CustomerView| customer_matches(c, opt_text(search_query)),
            key == |c: CustomerView| text_key(c.created_at),
            opt_chars(needle) == opt_text(search_query),
            hits.len() == keys.len(),
            views(hits@) =~= all.take(k as int).filter(pred),
            key_views(keys@) =~= views(hits@).map_values(key),
        decreases store.customers.len() - k,
    {
        let c = &store.customers[k];
        proof {
            lemma_filter_step(all, k as int, pred);
        }
        if selects_customer(c, &needle) {
            let ghost hits_before = hits@;
            let ghost keys_before = keys@;
            let key_k = key_of_text(&c.created_at);
            hits.push(c.clone());
            keys.push(key_k);
            proof {
                assert(views(hits@) =~= views(hits_before).push(c@));
                assert(key_views(keys@) =~= key_views(keys_before).push(key_k@));
            }
        }
        k += 1;
    }
    proof {
        assert(all.take(k as int) =~= all);
    }
    listed(&hits, &keys, true, widen(page), widen(page_size))
}

/// The customer with identifier `id`, or `None` where the store holds none.
pub fn get_customer_by_id(store: &Store, id: i32) -> (r: Option<Customer>)
    ensures
        match r {
            Some(c) => store@.customer(id) == Some(c@),
            None => store@.customer(id) is None,
        },
{
    proof {
        use_type_invariant(store);
        assert(stored_ids(store.customers@) =~= customer_ids(store@.customers));
    }
    match find(&store.customers, id) {
        Some(p) => Some(store.customers[p].clone()),
        None => None,
    }
}

/// Adds a customer with the creation time `now`, under the next identifier,
/// and returns it as stored.
///
/// Fails with `QueryFailed`, and leaves the store as it was, only when the
/// identifiers of customers are used up.
pub fn create_customer_at(
    store: &mut Store,
    name: String,
    phone: String,
    address: String,
    notes: Option<String>,
    now: String,
) -> (r: Result<Customer, ErrorKind>)
    ensures
        match r {
            Ok(c) => {
                &&& old(store)@.has_room_for_customer()
                &&& c@ == old(store)@.new_customer(name@, phone@, address@, opt_text(notes), now@)
                &&& final(store)@ == old(store)@.with_customer(c@)
                &&& forall|i: int|
                    0 <= i < old(store)@.customers.len() ==> (
                    #[trigger] old(store)@.customers[i]).id != c.id
            },
            Err(e) => {
                &&& !old(store)@.has_room_for_customer()
                &&& e == ErrorKind::QueryFailed
                &&& final(store)@ == old(store)@
            },
        },
{
    proof {
        use_type_invariant(&*store);
        if store@.last_customer_id < i32::MAX {
            let ids = customer_ids(store@.customers);
            crate::store::lemma_next_id_is_fresh(ids, store@.last_customer_id);
            assert forall|i: int| 0 <= i < store@.customers.len() implies (
            #[trigger] store@.customers[i]).id != Some((store@.last_customer_id + 1) as i32) by {
                assert(ids[i] == store@.customers[i].id);
            }
        }
    }
    if store.last_customer_id == i32::MAX {
        return Err(ErrorKind::QueryFailed);
    }
    let id: i32 = store.last_customer_id + 1;
    let row = Customer { id: Some(id), name, phone, address, notes, created_at: Some(now) };
    let out = row.clone();
    let mut rows: Vec<Customer> = Vec::new();
    std::mem::swap(&mut store.customers, &mut rows);
    let ghost before = rows@;
    rows.push(row);
    proof {
        assert(views(rows@) =~= views(before).push(row@));
        assert(customer_ids(views(rows@)) =~= customer_ids(views(before)).push(Some(id)));
    }
    store.last_customer_id = id;
    std::mem::swap(&mut store.customers, &mut rows);
    Ok(out)
}

/// Adds a customer, created now, under the next identifier, and returns it as
/// stored. The creation time is read from the clock; everything else is as in
/// [`create_customer_at`].
pub fn create_customer(
    store: &mut Store,
    name: String,
    phone: String,
    address: String,
    notes: Option<String>,
) -> (r: Result<Customer, ErrorKind>)
    ensures
        match r {
            Ok(c) => {
                &&& old(store)@.has_room_for_customer()
                &&& c.created_at is Some
                &&& c@ == old(store)@.new_customer(
                    name@,
                    phone@,
                    address@,
                    opt_text(notes),
                    c.created_at->0@,
                )
                &&& final(store)@ == old(store)@.with_customer(c@)
                &&& forall|i: int|
                    0 <= i < old(store)@.customers.len() ==> (
                    #[trigger] old(store)@.customers[i]).id != c.id
            },
            Err(e) => {
                &&& !old(store)@.has_room_for_customer()
                &&& e == ErrorKind::QueryFailed
                &&& final(store)@ == old(store)@
            },
        },
{
    let now = timestamp_now();
    create_customer_at(store, name, phone, address, notes, now)
}

/// Puts the given fields into the customer `id` and leaves the fields that
/// are not given as they are. Nothing changes where no customer has that
/// identifier or no field is given.
pub fn update_customer(
    store: &mut Store,
    id: i32,
    name: Option<String>,
    phone: Option<String>,
    address: Option<String>,
    notes: Option<String>,
)
    ensures
        final(store)@ == old(store)@.with_customer_patched(
            id,
            opt_text(name),
            opt_text(phone),
            opt_text(address),
            opt_text(notes),
        ),
{
    proof {
        use_type_invariant(&*store);
        assert(stored_ids(store.customers@) =~= customer_ids(store@.customers));
    }
    let ghost before = store@;
    let ghost patch = |c: CustomerView|
        if c.id == Some(id) {
            patched_customer(c, opt_text(name), opt_text(phone), opt_text(address), opt_text(notes))
        } else {
            c
        };
    match find(&store.customers, id) {
        Some(p) => {
            let cur = &store.customers[p];
            let row = Customer {
                id: cur.id,
                name: match name {
                    Some(v) => v,
                    None => cur.name.clone(),
                },
                phone: match phone {
                    Some(v) => v,
                    None => cur.phone.clone(),
                },
                address: match address {
                    Some(v) => v,
                    None => cur.address.clone(),
                },
                notes: match notes {
                    Some(v) => Some(v),
                    None => copy_opt_text(&cur.notes),
                },
                created_at: copy_opt_text(&cur.created_at),
            };
            let mut rows: Vec<Customer> = Vec::new();
            std::mem::swap(&mut store.customers, &mut rows);
            rows.set(p, row);
            proof {
                let ids = customer_ids(before.customers);
                assert forall|i: int| 0 <= i < rows@.len() implies #[trigger] views(rows@)[i]
                    == patch(before.customers[i]) by {
                    if i != p {
                        assert(ids[i] == before.customers[i].id);
                        if i < p {
                            assert(ids[i]->0 < ids[p as int]->0);
                        } else {
                            assert(ids[p as int]->0 < ids[i]->0);
                        }
                    }
                }
                assert(views(rows@) =~= before.customers.map_values(patch));
                assert(customer_ids(views(rows@)) =~= ids);
            }
            std::mem::swap(&mut store.customers, &mut rows);
        },
        None => {
            proof {
                let ids = customer_ids(before.customers);
                assert forall|i: int| 0 <= i < before.customers.len() implies patch(
                    #[trigger] before.customers[i],
                ) == before.customers[i] by {
                    assert(ids[i] == before.customers[i].id);
                }
                assert(before.customers.map_values(patch) =~= before.customers);
            }
        },
    }
}

/// Deletes the customer `id`. Deleting an identifier that no customer has
/// changes nothing. The invoices and payments of the customer are kept.
pub fn delete_customer(store: &mut Store, id: i32)
    ensures
        final(store)@ == old(store)@.without_customer(id),
{
    proof {
        use_type_invariant(&*store);
        assert(stored_ids(store.customers@) =~= customer_ids(store@.customers));
    }
    let ghost before = store@;
    let ghost ids = customer_ids(before.customers);
    let ghost keep = |c: CustomerView| c.id != Some(id);
    match find(&store.customers, id) {
        Some(p) => {
            let mut rows: Vec<Customer> = Vec::new();
            std::mem::swap(&mut store.customers, &mut rows);
            rows.remove(p);
            proof {
                assert forall|i: int| 0 <= i < before.customers.len() && i != p implies keep(
                    #[trigger] before.customers[i],
                ) by {
                    assert(ids[i] == before.customers[i].id);
                    if i < p {
                        assert(ids[i]->0 < ids[p as int]->0);
                    } else {
                        assert(ids[p as int]->0 < ids[i]->0);
                    }
                }
                assert(ids[p as int] == before.customers[p as int].id);
                lemma_filter_removes_one(before.customers, keep, p as int);
                assert(views(rows@) =~= before.customers.remove(p as int));
                assert(customer_ids(views(rows@)) =~= ids.remove(p as int));
            }
            std::mem::swap(&mut store.customers, &mut rows);
        },
        None => {
            proof {
                assert forall|i: int| 0 <= i < before.customers.len() implies keep(
                    #[trigger] before.customers[i],
                ) by {
                    assert(ids[i] == before.customers[i].id);
                }
                lemma_filter_keeps_all(before.customers, keep);
            }
        },
    }
}

/// A patch that gives only notes changes the notes of the customer `id` and
/// nothing else: its name, phone and address stay, and so does every other
/// customer.
pub proof fn lemma_notes_patch_changes_notes_only(s: StoreView, id: i32, notes: Seq<char>, i: int)
    requires
        s.wf(),
        0 <= i < s.customers.len(),
    ensures
        ({
            let t = s.with_customer_patched(id, None, None, None, Some(notes));
            &&& t.customers.len() == s.customers.len()
            &&& t.customers[i].id == s.customers[i].id
            &&& t.customers[i].name == s.customers[i].name
            &&& t.customers[i].phone == s.customers[i].phone
            &&& t.customers[i].address == s.customers[i].address
            &&& t.customers[i].created_at == s.customers[i].created_at
            &&& t.customers[i].notes == if s.customers[i].id == Some(id) {
                Some(notes)
            } else {
                s.customers[i].notes
            }
            &&& t.invoices == s.invoices
            &&& t.items == s.items
            &&& t.payments == s.payments
        }),
{
}

/// Without a search the listing holds every customer, and a page of it holds
/// the rows that the page number and size count off from the whole listing:
/// page 2 of size 10 holds rows 11 to 20, as far as there are that many.
pub proof fn lemma_customers_page(s: StoreView, page: int, size: int)
    requires
        page >= 1,
        size >= 0,
    ensures
        ({
            let whole = s.customers_listed(None, None, None);
            let got = s.customers_listed(None, Some(page), Some(size));
            let skipped = (page - 1) * size;
            let left = if skipped >= whole.len() { 0 } else { whole.len() - skipped };
            &&& whole.len() == s.customers.len()
            &&& skipped >= 0
            &&& got.len() == (if size <= left { size } else { left })
            &&& forall|i: int| 0 <= i < got.len() ==> #[trigger] got[i] == whole[skipped + i]
        }),
{
    let found = s.customers_found(None);
    lemma_filter_keeps_all(s.customers, |c: CustomerView| customer_matches(c, None));
    let keys = found.map_values(|c: CustomerView| text_key(c.created_at));
    crate::order::lemma_ordering_permutes(keys, true);
    crate::order::lemma_page_rows(arrange(found, keys, true), page, size);
}

/// The listing stands newest first: of two rows of it, the later one was not
/// created after the earlier one, and rows created at the same time stand in
/// the order of their identifiers.
pub proof fn lemma_customers_newest_first(s: StoreView, search: Option<Seq<char>>, i: int, j: int)
    requires
        s.wf(),
        0 <= i < j < s.customers_listed(search, None, None).len(),
    ensures
        ({
            let rows = s.customers_listed(search, None, None);
            &&& rows[i].created_at is Some
            &&& rows[j].created_at is Some
            &&& !text_lt(rows[i].created_at->0, rows[j].created_at->0)
            &&& rows[i].created_at == rows[j].created_at ==> rows[i].id->0 < rows[j].id->0
        }),
{
    let pred = |c: CustomerView| customer_matches(c, search);
    let found = s.customers_found(search);
    let keys = found.map_values(|c: CustomerView| text_key(c.created_at));
    let ord = crate::order::ordering(keys, true);
    let id_of = |c: CustomerView| c.id;
    crate::order::lemma_ordering_permutes(keys, true);
    crate::order::lemma_ordering_in_order(keys, true, i, j);
    assert(s.customers.map_values(id_of) =~= customer_ids(s.customers));
    crate::listing::lemma_filter_keeps_ascent(s.customers, pred, id_of, s.last_customer_id);
    let fids = found.map_values(id_of);
    assert forall|m: int| 0 <= m < found.len() implies (#[trigger] found[m]).created_at is Some by {
        assert(found.contains(found[m]));
        s.customers.lemma_filter_contains_rev(pred, found[m]);
        let k = choose|k: int| 0 <= k < s.customers.len() && s.customers[k] == found[m];
        assert(crate::store::customer_stored(s.customers[k]));
    }
    assert(found[ord[i]].created_at is Some);
    assert(found[ord[j]].created_at is Some);
    if keys[ord[i]] == keys[ord[j]] {
        assert(fids[ord[i]]->0 < fids[ord[j]]->0);
    }
}

/// Taking a customer in leaves the contents of the store well formed.
pub proof fn lemma_new_customer_keeps_wf(
    s: StoreView,
    name: Seq<char>,
    phone: Seq<char>,
    address: Seq<char>,
    notes: Option<Seq<char>>,
    now: Seq<char>,
)
    requires
        s.wf(),
        s.has_room_for_customer(),
    ensures
        s.with_customer(s.new_customer(name, phone, address, notes, now)).wf(),
{
    let c = s.new_customer(name, phone, address, notes, now);
    let more = s.with_customer(c).customers;
    assert(customer_ids(more) =~= customer_ids(s.customers).push(c.id));
    assert forall|i: int| 0 <= i < more.len() implies crate::store::customer_stored(
        #[trigger] more[i],
    ) by {
        if i < s.customers.len() {
            assert(crate::store::customer_stored(s.customers[i]));
        }
    }
}

/// Putting fields into a customer leaves the contents of the store well
/// formed.
pub proof fn lemma_patched_customer_keeps_wf(
    s: StoreView,
    id: i32,
    name: Option<Seq<char>>,
    phone: Option<Seq<char>>,
    address: Option<Seq<char>>,
    notes: Option<Seq<char>>,
)
    requires
        s.wf(),
    ensures
        s.with_customer_patched(id, name, phone, address, notes).wf(),
{
    let patched = s.with_customer_patched(id, name, phone, address, notes).customers;
    assert(customer_ids(patched) =~= customer_ids(s.customers));
    assert forall|i: int| 0 <= i < patched.len() implies crate::store::customer_stored(
        #[trigger] patched[i],
    ) by {
        assert(crate::store::customer_stored(s.customers[i]));
    }
}

/// Deleting a customer leaves the contents of the store well formed.
pub proof fn lemma_deleted_customer_keeps_wf(s: StoreView, id: i32)
    requires
        s.wf(),
    ensures
        s.without_customer(id).wf(),
{
    let keep = |c: CustomerView| c.id != Some(id);
    let id_of = |c: CustomerView| c.id;
    assert(s.customers.map_values(id_of) =~= customer_ids(s.customers));
    crate::listing::lemma_filter_keeps_ascent(s.customers, keep, id_of, s.last_customer_id);
    let left = s.without_customer(id).customers;
    assert(customer_ids(left) =~= left.map_values(id_of));
    assert forall|i: int| 0 <= i < left.len() implies crate::store::customer_stored(
        #[trigger] left[i],
    ) by {
        assert(left.contains(left[i]));
        s.customers.lemma_filter_contains_rev(keep, left[i]);
    }
}

} // verus!
