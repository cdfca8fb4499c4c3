use bookkeeping::{create_customer, create_customer_at, create_invoice_at, delete_customer,
    get_all_customers, get_all_invoices, get_customer_by_id, update_customer, Customer, Invoice,
    Store};

fn add(store: &mut Store, name: &str, phone: &str, address: &str, notes: Option<&str>, at: &str) -> Customer {
    create_customer_at(
        store,
        name.to_string(),
        phone.to_string(),
        address.to_string(),
        notes.map(|n| n.to_string()),
        at.to_string(),
    )
    .unwrap()
}

fn names(rows: &[Customer]) -> Vec<String> {
    rows.iter().map(|c| c.name.clone()).collect()
}

fn numbered(count: usize) -> Store {
    let mut store = Store::new();
    for i in 1..=count {
        add(&mut store, &format!("c{:02}", i), "0", "x", None, &format!("2024-01-{:02}", i));
    }
    store
}

#[test]
fn created_customers_count_up_from_one() {
    let mut store = Store::new();
    let a = add(&mut store, "Amal", "0100", "North 1", Some("first"), "2024-01-01T10:00:00+00:00");
    let b = add(&mut store, "Basil", "0200", "South 2", None, "2024-01-02T10:00:00+00:00");
    assert_eq!(a.id, Some(1));
    assert_eq!(b.id, Some(2));
    assert_eq!(
        a,
        Customer {
            id: Some(1),
            name: "Amal".to_string(),
            phone: "0100".to_string(),
            address: "North 1".to_string(),
            notes: Some("first".to_string()),
            created_at: Some("2024-01-01T10:00:00+00:00".to_string()),
        }
    );
    assert_eq!(get_customer_by_id(&store, 1), Some(a));
    assert_eq!(get_customer_by_id(&store, 2), Some(b));
    assert_eq!(store.customers().len(), 2);
}

#[test]
fn missing_customer_is_absent_not_an_error() {
    let mut store = Store::new();
    assert_eq!(get_customer_by_id(&store, 1), None);
    add(&mut store, "Amal", "0100", "North 1", None, "t");
    assert_eq!(get_customer_by_id(&store, 2), None);
    assert_eq!(get_customer_by_id(&store, 0), None);
    assert_eq!(get_customer_by_id(&store, -1), None);
    assert_eq!(get_customer_by_id(&store, i32::MAX), None);
}

#[test]
fn customer_created_now_carries_a_timestamp() {
    let mut store = Store::new();
    let c = create_customer(&mut store, "Amal".to_string(), "0100".to_string(), "North".to_string(), None)
        .unwrap();
    let at = c.created_at.clone().unwrap();
    assert!(at.len() >= 20);
    assert_eq!(&at[4..5], "-");
    assert_eq!(&at[10..11], "T");
    assert!(at.ends_with("+00:00"));
    assert_eq!(get_customer_by_id(&store, 1), Some(c));
}

#[test]
fn update_with_only_notes_changes_only_notes() {
    let mut store = Store::new();
    let a = add(&mut store, "Amal", "0100", "North 1", Some("old"), "t1");
    let b = add(&mut store, "Basil", "0200", "South 2", Some("keep"), "t2");
    update_customer(&mut store, 1, None, None, None, Some("new".to_string()));
    let after = get_customer_by_id(&store, 1).unwrap();
    assert_eq!(after.name, a.name);
    assert_eq!(after.phone, a.phone);
    assert_eq!(after.address, a.address);
    assert_eq!(after.created_at, a.created_at);
    assert_eq!(after.id, a.id);
    assert_eq!(after.notes, Some("new".to_string()));
    assert_eq!(get_customer_by_id(&store, 2), Some(b));
}

#[test]
fn update_puts_in_each_field_given() {
    let mut store = Store::new();
    add(&mut store, "Amal", "0100", "North 1", None, "t1");
    update_customer(&mut store, 1, Some("Amal B".to_string()), None, Some("West 9".to_string()), None);
    let after = get_customer_by_id(&store, 1).unwrap();
    assert_eq!(after.name, "Amal B");
    assert_eq!(after.phone, "0100");
    assert_eq!(after.address, "West 9");
    assert_eq!(after.notes, None);
    update_customer(&mut store, 1, None, Some("0999".to_string()), None, None);
    assert_eq!(get_customer_by_id(&store, 1).unwrap().phone, "0999");
}

#[test]
fn update_without_fields_or_without_customer_changes_nothing() {
    let mut store = Store::new();
    let a = add(&mut store, "Amal", "0100", "North 1", Some("n"), "t1");
    update_customer(&mut store, 1, None, None, None, None);
    assert_eq!(get_customer_by_id(&store, 1), Some(a.clone()));
    update_customer(&mut store, 5, Some("Ghost".to_string()), None, None, None);
    assert_eq!(get_customer_by_id(&store, 1), Some(a));
    assert_eq!(get_customer_by_id(&store, 5), None);
    assert_eq!(store.customers().len(), 1);
}

#[test]
fn delete_is_idempotent_and_ids_are_not_reused() {
    let mut store = Store::new();
    add(&mut store, "Amal", "0100", "North 1", None, "t1");
    add(&mut store, "Basil", "0200", "South 2", None, "t2");
    delete_customer(&mut store, 2);
    assert_eq!(get_customer_by_id(&store, 2), None);
    assert_eq!(store.customers().len(), 1);
    delete_customer(&mut store, 2);
    delete_customer(&mut store, 40);
    assert_eq!(store.customers().len(), 1);
    let c = add(&mut store, "Chadi", "0300", "East 3", None, "t3");
    assert_eq!(c.id, Some(3));
    delete_customer(&mut store, 1);
    assert_eq!(names(store.customers()), vec!["Chadi"]);
}

#[test]
fn deleting_a_customer_keeps_its_invoices() {
    let mut store = Store::new();
    add(&mut store, "Amal", "0100", "North 1", None, "t1");
    let invoice = Invoice {
        id: None,
        invoice_number: "A-1".to_string(),
        customer_id: 1,
        customer_name: None,
        date: "2024-01-01".to_string(),
        total: 500,
        status: None,
        paid_amount: None,
        remaining_amount: None,
        created_at: None,
    };
    create_invoice_at(&mut store, invoice, "t2".to_string()).unwrap();
    delete_customer(&mut store, 1);
    let listed = get_all_invoices(&store, None, None, None);
    assert_eq!(listed.data.len(), 1);
    assert_eq!(listed.data[0].customer_name, None);
    assert_eq!(listed.data[0].customer_phone, None);
    assert_eq!(listed.total, 500);
}

#[test]
fn listing_is_newest_first_with_ties_in_order_of_ids() {
    let mut store = Store::new();
    add(&mut store, "one", "0", "x", None, "2024-01-02");
    add(&mut store, "two", "0", "x", None, "2024-01-03");
    add(&mut store, "three", "0", "x", None, "2024-01-01");
    add(&mut store, "four", "0", "x", None, "2024-01-03");
    add(&mut store, "five", "0", "x", None, "2024-01-02");
    let all = get_all_customers(&store, None, None, None);
    assert_eq!(names(&all), vec!["two", "four", "one", "five", "three"]);
}

#[test]
fn search_ignores_case_and_looks_at_four_fields() {
    let mut store = Store::new();
    add(&mut store, "Amal Haddad", "0100-555", "North Road 1", Some("pays late"), "t1");
    add(&mut store, "Basil", "0200-777", "South Lane 2", None, "t2");
    add(&mut store, "Chadi", "0300-555", "East 3", Some("Wholesale"), "t3");
    let find = |q: &str| names(&get_all_customers(&store, Some(q.to_string()), None, None));
    assert_eq!(find("hadDAD"), vec!["Amal Haddad"]);
    assert_eq!(find("555"), vec!["Chadi", "Amal Haddad"]);
    assert_eq!(find("lane"), vec!["Basil"]);
    assert_eq!(find("WHOLE"), vec!["Chadi"]);
    assert_eq!(find("a"), vec!["Chadi", "Basil", "Amal Haddad"]);
    assert_eq!(find(""), vec!["Chadi", "Basil", "Amal Haddad"]);
    assert_eq!(find("zzz"), Vec::<String>::new());
    assert_eq!(find("North Road 12"), Vec::<String>::new());
}

#[test]
fn page_two_of_ten_holds_rows_eleven_to_twenty() {
    let store = numbered(25);
    let whole = get_all_customers(&store, None, None, None);
    assert_eq!(whole.len(), 25);
    assert_eq!(whole[0].name, "c25");
    assert_eq!(whole[24].name, "c01");
    let page = get_all_customers(&store, None, Some(2), Some(10));
    assert_eq!(page.len(), 10);
    assert_eq!(page, whole[10..20].to_vec());
    assert_eq!(page[0].name, "c15");
    assert_eq!(page[9].name, "c06");
    let first = get_all_customers(&store, None, Some(1), Some(10));
    assert_eq!(first, whole[0..10].to_vec());
    let last = get_all_customers(&store, None, Some(3), Some(10));
    assert_eq!(last, whole[20..25].to_vec());
    assert!(get_all_customers(&store, None, Some(4), Some(10)).is_empty());
}

#[test]
fn first_page_of_a_short_listing_holds_everything() {
    let store = numbered(7);
    let page = get_all_customers(&store, None, Some(1), Some(10));
    assert_eq!(page.len(), 7);
    assert_eq!(page, get_all_customers(&store, None, None, None));
    let empty = Store::new();
    assert!(get_all_customers(&empty, None, Some(1), Some(10)).is_empty());
}

#[test]
fn paging_needs_both_page_and_size() {
    let store = numbered(12);
    assert_eq!(get_all_customers(&store, None, Some(2), None).len(), 12);
    assert_eq!(get_all_customers(&store, None, None, Some(5)).len(), 12);
}

#[test]
fn paging_at_the_edges() {
    let store = numbered(12);
    assert!(get_all_customers(&store, None, Some(1), Some(0)).is_empty());
    assert_eq!(get_all_customers(&store, None, Some(1), Some(-1)).len(), 12);
    assert_eq!(names(&get_all_customers(&store, None, Some(0), Some(5))), vec!["c12", "c11", "c10", "c09", "c08"]);
    assert_eq!(get_all_customers(&store, None, Some(-3), Some(5)).len(), 5);
    assert!(get_all_customers(&store, None, Some(i32::MAX), Some(i32::MAX)).is_empty());
    assert_eq!(get_all_customers(&store, None, Some(1), Some(i32::MAX)).len(), 12);
    assert_eq!(get_all_customers(&store, None, Some(i32::MIN), Some(i32::MIN)).len(), 0);
    assert_eq!(get_all_customers(&store, None, Some(2), Some(-4)).len(), 12);
}

#[test]
fn paging_a_search_counts_only_what_the_search_selects() {
    let mut store = Store::new();
    for i in 1..=9 {
        let name = if i % 2 == 0 { format!("even{}", i) } else { format!("odd{}", i) };
        add(&mut store, &name, "0", "x", None, &format!("2024-01-0{}", i));
    }
    let page = get_all_customers(&store, Some("ODD".to_string()), Some(2), Some(2));
    assert_eq!(names(&page), vec!["odd5", "odd3"]);
}

#[test]
fn derived_impls_cover_the_records() {
    let mut store = Store::new();
    let a = add(&mut store, "Amal", "0100", "North 1", None, "t1");
    let copy = a.clone();
    assert_eq!(copy, a);
    assert!(format!("{:?}", a).contains("Amal"));
}
