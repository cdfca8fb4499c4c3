use bookkeeping::{create_customer_at, create_invoice, create_invoice_at, create_invoice_item,
    create_payment_at, delete_invoice, delete_invoice_items, get_all_invoices, get_invoice_by_id,
    get_invoice_items, get_invoices_by_customer_id, get_products_grouped, update_invoice, ErrorKind,
    Invoice, InvoiceItem, Payment, Store};

fn draft(number: &str, customer_id: i32, date: &str, total: i64) -> Invoice {
    Invoice {
        id: None,
        invoice_number: number.to_string(),
        customer_id,
        customer_name: None,
        date: date.to_string(),
        total,
        status: None,
        paid_amount: None,
        remaining_amount: None,
        created_at: None,
    }
}

fn line(invoice_id: i32, product: &str, unit_price: i64, quantity: i64) -> InvoiceItem {
    InvoiceItem {
        id: None,
        invoice_id,
        product_name: product.to_string(),
        unit_price,
        quantity,
        total: unit_price * quantity,
    }
}

fn paid(customer_id: i32, invoice_id: Option<i32>, amount: i64) -> Payment {
    Payment {
        id: None,
        customer_id,
        customer_name: None,
        invoice_id,
        invoice_number: None,
        amount,
        date: "2024-02-01".to_string(),
        notes: None,
        created_at: None,
    }
}

fn customer(store: &mut Store, name: &str, phone: &str) -> i32 {
    create_customer_at(store, name.to_string(), phone.to_string(), "Road".to_string(), None, "t".to_string())
        .unwrap()
        .id
        .unwrap()
}

fn numbers(r: &bookkeeping::InvoicesResponse) -> Vec<String> {
    r.data.iter().map(|v| v.invoice_number.clone()).collect()
}

#[test]
fn created_invoice_gets_defaults_and_the_next_id() {
    let mut store = Store::new();
    let c = customer(&mut store, "Amal", "0100");
    let id = create_invoice_at(&mut store, draft("A-1", c, "2024-01-01", 1500), "t1".to_string()).unwrap();
    assert_eq!(id, 1);
    let mut given = draft("A-2", c, "2024-01-02", 900);
    given.status = Some("partial".to_string());
    given.paid_amount = Some(400);
    given.customer_name = Some("ignored".to_string());
    given.remaining_amount = Some(1);
    given.id = Some(99);
    given.created_at = Some("ignored".to_string());
    assert_eq!(create_invoice_at(&mut store, given, "t2".to_string()), Ok(2));
    assert_eq!(
        get_invoice_by_id(&store, 1),
        Some(Invoice {
            id: Some(1),
            invoice_number: "A-1".to_string(),
            customer_id: c,
            customer_name: None,
            date: "2024-01-01".to_string(),
            total: 1500,
            status: Some("unpaid".to_string()),
            paid_amount: Some(0),
            remaining_amount: None,
            created_at: Some("t1".to_string()),
        })
    );
    let second = get_invoice_by_id(&store, 2).unwrap();
    assert_eq!(second.status, Some("partial".to_string()));
    assert_eq!(second.paid_amount, Some(400));
    assert_eq!(second.customer_name, None);
    assert_eq!(second.remaining_amount, None);
    assert_eq!(second.created_at, Some("t2".to_string()));
    assert_eq!(get_invoice_by_id(&store, 3), None);
}

#[test]
fn invoice_created_now_is_stored_with_a_timestamp() {
    let mut store = Store::new();
    let id = create_invoice(&mut store, draft("A-1", 7, "2024-01-01", 10)).unwrap();
    let stored = get_invoice_by_id(&store, id).unwrap();
    assert!(stored.created_at.unwrap().contains('T'));
    assert_eq!(stored.customer_id, 7);
}

#[test]
fn a_second_invoice_with_the_same_number_is_refused() {
    let mut store = Store::new();
    create_invoice_at(&mut store, draft("A-1", 1, "2024-01-01", 10), "t1".to_string()).unwrap();
    let r = create_invoice_at(&mut store, draft("A-1", 2, "2024-01-02", 20), "t2".to_string());
    assert_eq!(r, Err(ErrorKind::QueryFailed));
    assert_eq!(store.invoices().len(), 1);
    assert_eq!(create_invoice_at(&mut store, draft("a-1", 2, "2024-01-02", 20), "t3".to_string()), Ok(2));
}

#[test]
fn listing_joins_the_customer_and_sums_every_match() {
    let mut store = Store::new();
    let a = customer(&mut store, "Amal", "0100");
    let b = customer(&mut store, "Basil", "0200");
    let mut part = draft("INV-001", a, "2024-01-10", 1000);
    part.paid_amount = Some(250);
    create_invoice_at(&mut store, part, "2024-01-10T08:00".to_string()).unwrap();
    create_invoice_at(&mut store, draft("INV-002", b, "2024-02-11", 700), "2024-02-11T08:00".to_string()).unwrap();
    create_invoice_at(&mut store, draft("X-003", 50, "2024-03-12", 40), "2024-03-12T08:00".to_string()).unwrap();
    let all = get_all_invoices(&store, None, None, None);
    assert_eq!(numbers(&all), vec!["X-003", "INV-002", "INV-001"]);
    assert_eq!(all.total, 1740);
    assert_eq!(all.data[2].customer_name, Some("Amal".to_string()));
    assert_eq!(all.data[2].customer_phone, Some("0100".to_string()));
    assert_eq!(all.data[2].paid_amount, Some(250));
    assert_eq!(all.data[2].remaining_amount, Some(750));
    assert_eq!(all.data[1].remaining_amount, Some(700));
    assert_eq!(all.data[0].customer_name, None);
    assert_eq!(all.data[0].customer_phone, None);
    assert_eq!(all.data[0].id, Some(3));
    assert_eq!(all.data[0].created_at, Some("2024-03-12T08:00".to_string()));
    let page = get_all_invoices(&store, None, Some(2), Some(2));
    assert_eq!(numbers(&page), vec!["INV-001"]);
    assert_eq!(page.total, 1740);
    let by_number = get_all_invoices(&store, Some("inv-".to_string()), None, None);
    assert_eq!(numbers(&by_number), vec!["INV-002", "INV-001"]);
    assert_eq!(by_number.total, 1700);
    let by_name = get_all_invoices(&store, Some("BASIL".to_string()), None, None);
    assert_eq!(numbers(&by_name), vec!["INV-002"]);
    assert_eq!(by_name.total, 700);
    let by_date = get_all_invoices(&store, Some("2024-03".to_string()), None, None);
    assert_eq!(numbers(&by_date), vec!["X-003"]);
    let none = get_all_invoices(&store, Some("nothing".to_string()), Some(1), Some(10));
    assert!(none.data.is_empty());
    assert_eq!(none.total, 0);
}

#[test]
fn invoices_of_a_customer_carry_the_payments_made_against_them() {
    let mut store = Store::new();
    let a = customer(&mut store, "Amal", "0100");
    let b = customer(&mut store, "Basil", "0200");
    let mut first = draft("A-1", a, "2024-01-10", 1000);
    first.paid_amount = Some(999);
    create_invoice_at(&mut store, first, "t1".to_string()).unwrap();
    create_invoice_at(&mut store, draft("B-1", b, "2024-01-15", 10), "t2".to_string()).unwrap();
    create_invoice_at(&mut store, draft("A-2", a, "2024-03-01", 500), "t3".to_string()).unwrap();
    create_invoice_at(&mut store, draft("A-3", a, "2024-01-10", 70), "t4".to_string()).unwrap();
    create_payment_at(&mut store, paid(a, Some(1), 300), "s1".to_string()).unwrap();
    create_payment_at(&mut store, paid(a, Some(1), 200), "s2".to_string()).unwrap();
    create_payment_at(&mut store, paid(a, None, 5000), "s3".to_string()).unwrap();
    create_payment_at(&mut store, paid(a, Some(3), 600), "s4".to_string()).unwrap();
    let rows = get_invoices_by_customer_id(&store, a);
    let seen: Vec<(String, Option<i128>, Option<i128>)> =
        rows.iter().map(|v| (v.invoice_number.clone(), v.paid_amount, v.remaining_amount)).collect();
    assert_eq!(
        seen,
        vec![
            ("A-2".to_string(), Some(600), Some(-100)),
            ("A-1".to_string(), Some(500), Some(500)),
            ("A-3".to_string(), Some(0), Some(70)),
        ]
    );
    assert_eq!(rows[0].customer_id, a);
    assert_eq!(rows[0].customer_name, None);
    assert_eq!(rows[0].id, Some(3));
    assert_eq!(rows[0].total, 500);
    assert_eq!(rows[0].date, "2024-03-01");
    assert_eq!(rows[0].status, Some("unpaid".to_string()));
    assert_eq!(rows[0].created_at, Some("t3".to_string()));
    assert_eq!(get_invoice_by_id(&store, 1).unwrap().paid_amount, Some(999));
    assert!(get_invoices_by_customer_id(&store, 9).is_empty());
}

#[test]
fn amount_paid_is_the_sum_of_the_linked_payments() {
    let mut store = Store::new();
    let c = customer(&mut store, "Amal", "0100");
    let mut given = draft("I1", c, "2024-01-01", 10000);
    given.status = Some("unpaid".to_string());
    given.paid_amount = Some(0);
    create_invoice_at(&mut store, given, "t1".to_string()).unwrap();
    create_payment_at(&mut store, paid(c, Some(1), 3000), "s1".to_string()).unwrap();
    create_payment_at(&mut store, paid(c, Some(1), 2000), "s2".to_string()).unwrap();
    create_payment_at(&mut store, paid(c, None, 4000), "s3".to_string()).unwrap();
    let v = get_invoices_by_customer_id(&store, c);
    assert_eq!(v.len(), 1);
    assert_eq!(v[0].id, Some(1));
    assert_eq!(v[0].paid_amount, Some(5000));
    assert_eq!(v[0].remaining_amount, Some(5000));
    let free = get_invoices_by_customer_id(&Store::new(), c);
    assert!(free.is_empty());
}

#[test]
fn an_invoice_without_payments_has_paid_nothing() {
    let mut store = Store::new();
    let mut given = draft("I1", 4, "2024-01-01", 800);
    given.paid_amount = Some(800);
    given.status = Some("paid".to_string());
    create_invoice_at(&mut store, given, "t1".to_string()).unwrap();
    create_payment_at(&mut store, paid(4, Some(2), 100), "s1".to_string()).unwrap();
    let v = get_invoices_by_customer_id(&store, 4);
    assert_eq!(v[0].paid_amount, Some(0));
    assert_eq!(v[0].remaining_amount, Some(800));
    create_payment_at(&mut store, paid(7, Some(1), i64::MAX), "s2".to_string()).unwrap();
    create_payment_at(&mut store, paid(7, Some(1), i64::MAX), "s3".to_string()).unwrap();
    let w = get_invoices_by_customer_id(&store, 4);
    assert_eq!(w[0].paid_amount, Some(2 * (i64::MAX as i128)));
    assert_eq!(w[0].remaining_amount, Some(800 - 2 * (i64::MAX as i128)));
}

#[test]
fn items_are_listed_by_invoice_in_order_of_ids() {
    let mut store = Store::new();
    let first = create_invoice_item(&mut store, line(1, "Cement", 500, 3)).unwrap();
    assert_eq!(first.id, Some(1));
    assert_eq!(first.total, 1500);
    assert_eq!(first.product_name, "Cement");
    create_invoice_item(&mut store, line(2, "Sand", 100, 1)).unwrap();
    create_invoice_item(&mut store, line(1, "Gravel", 200, 2)).unwrap();
    let items = get_invoice_items(&store, 1);
    assert_eq!(items.iter().map(|t| t.id).collect::<Vec<_>>(), vec![Some(1), Some(3)]);
    assert_eq!(items[1].product_name, "Gravel");
    assert_eq!(items[1].unit_price, 200);
    assert_eq!(items[1].quantity, 2);
    assert!(get_invoice_items(&store, 3).is_empty());
    delete_invoice_items(&mut store, 1);
    assert!(get_invoice_items(&store, 1).is_empty());
    assert_eq!(get_invoice_items(&store, 2).len(), 1);
    delete_invoice_items(&mut store, 1);
    assert_eq!(store.items().len(), 1);
    assert_eq!(create_invoice_item(&mut store, line(1, "Lime", 1, 1)).unwrap().id, Some(4));
}

#[test]
fn deleting_an_invoice_removes_it_and_its_two_items() {
    let mut store = Store::new();
    let c = customer(&mut store, "Amal", "0100");
    let keep = create_invoice_at(&mut store, draft("A-1", c, "2024-01-01", 10), "t1".to_string()).unwrap();
    let gone = create_invoice_at(&mut store, draft("A-2", c, "2024-01-02", 20), "t2".to_string()).unwrap();
    create_invoice_item(&mut store, line(gone, "Cement", 5, 2)).unwrap();
    create_invoice_item(&mut store, line(keep, "Sand", 5, 2)).unwrap();
    create_invoice_item(&mut store, line(gone, "Gravel", 5, 2)).unwrap();
    create_payment_at(&mut store, paid(c, Some(gone), 5), "p".to_string()).unwrap();
    delete_invoice(&mut store, gone);
    assert!(get_invoice_items(&store, gone).is_empty());
    assert_eq!(get_invoice_by_id(&store, gone), None);
    assert_eq!(get_invoice_items(&store, keep).len(), 1);
    assert!(get_invoice_by_id(&store, keep).is_some());
    assert_eq!(store.payments().len(), 1);
    delete_invoice(&mut store, gone);
    delete_invoice(&mut store, 500);
    assert_eq!(store.invoices().len(), 1);
    assert_eq!(store.items().len(), 1);
    assert_eq!(create_invoice_at(&mut store, draft("A-2", c, "2024-01-03", 1), "t3".to_string()), Ok(3));
}

#[test]
fn products_are_distinct_names_under_their_first_id() {
    let mut store = Store::new();
    for name in ["Sand", "cement", "Cement", "Sand", "Gravel", "Cement", "Ásphalt"] {
        create_invoice_item(&mut store, line(1, name, 1, 1)).unwrap();
    }
    let all = get_products_grouped(&store, None);
    let seen: Vec<(Option<i32>, String)> = all.iter().map(|p| (p.id, p.name.clone())).collect();
    assert_eq!(
        seen,
        vec![
            (Some(3), "Cement".to_string()),
            (Some(5), "Gravel".to_string()),
            (Some(1), "Sand".to_string()),
            (Some(2), "cement".to_string()),
            (Some(7), "Ásphalt".to_string()),
        ]
    );
    assert_eq!(all[0].unit_price, None);
    assert_eq!(all[0].created_at, None);
    let some = get_products_grouped(&store, Some("CEM".to_string()));
    assert_eq!(some.iter().map(|p| p.id).collect::<Vec<_>>(), vec![Some(3), Some(2)]);
    assert!(get_products_grouped(&store, Some("wood".to_string())).is_empty());
    assert!(get_products_grouped(&Store::new(), None).is_empty());
}

#[test]
fn update_changes_the_fields_given_and_no_others() {
    let mut store = Store::new();
    create_invoice_at(&mut store, draft("A-1", 1, "2024-01-01", 1000), "t1".to_string()).unwrap();
    create_invoice_at(&mut store, draft("A-2", 1, "2024-01-02", 2000), "t2".to_string()).unwrap();
    let before = get_invoice_by_id(&store, 2).unwrap();
    assert_eq!(
        update_invoice(&mut store, 1, None, None, None, None, Some("partial".to_string()), Some(400)),
        Ok(())
    );
    let after = get_invoice_by_id(&store, 1).unwrap();
    assert_eq!(after.status, Some("partial".to_string()));
    assert_eq!(after.paid_amount, Some(400));
    assert_eq!(after.invoice_number, "A-1");
    assert_eq!(after.customer_id, 1);
    assert_eq!(after.date, "2024-01-01");
    assert_eq!(after.total, 1000);
    assert_eq!(after.created_at, Some("t1".to_string()));
    assert_eq!(get_invoice_by_id(&store, 2), Some(before));
    update_invoice(&mut store, 1, Some("A-9".to_string()), Some(5), Some("2025-05-05".to_string()), Some(-3), None, None)
        .unwrap();
    let again = get_invoice_by_id(&store, 1).unwrap();
    assert_eq!(again.invoice_number, "A-9");
    assert_eq!(again.customer_id, 5);
    assert_eq!(again.date, "2025-05-05");
    assert_eq!(again.total, -3);
    assert_eq!(again.status, Some("partial".to_string()));
    assert_eq!(again.paid_amount, Some(400));
}

#[test]
fn update_refuses_a_number_that_another_invoice_carries() {
    let mut store = Store::new();
    create_invoice_at(&mut store, draft("A-1", 1, "2024-01-01", 1000), "t1".to_string()).unwrap();
    create_invoice_at(&mut store, draft("A-2", 1, "2024-01-02", 2000), "t2".to_string()).unwrap();
    let r = update_invoice(&mut store, 2, Some("A-1".to_string()), None, None, Some(1), None, None);
    assert_eq!(r, Err(ErrorKind::QueryFailed));
    let kept = get_invoice_by_id(&store, 2).unwrap();
    assert_eq!(kept.invoice_number, "A-2");
    assert_eq!(kept.total, 2000);
    assert_eq!(update_invoice(&mut store, 2, Some("A-2".to_string()), None, None, Some(7), None, None), Ok(()));
    assert_eq!(get_invoice_by_id(&store, 2).unwrap().total, 7);
    assert_eq!(update_invoice(&mut store, 8, Some("A-1".to_string()), None, None, None, None, None), Ok(()));
    assert_eq!(update_invoice(&mut store, 1, None, None, None, None, None, None), Ok(()));
    assert_eq!(store.invoices().len(), 2);
    assert_eq!(get_invoice_by_id(&store, 1).unwrap().invoice_number, "A-1");
}
