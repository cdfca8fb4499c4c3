use bookkeeping::{create_customer_at, create_invoice_at, create_payment_at, get_all_debts,
    get_customer_debt, get_report_summary, get_transactions, update_invoice, delete_customer,
    Invoice, Payment, Store};

fn invoice(number: &str, customer_id: i32, date: &str, total: i64) -> Invoice {
    Invoice {
        id: None,
        invoice_number: number.to_string(),
        customer_id,
        customer_name: None,
        date: date.to_string(),
        total,
        status: None,
        paid_amount: None,
        remaining_amount: None,
        created_at: None,
    }
}

fn payment(customer_id: i32, invoice_id: Option<i32>, date: &str, amount: i64) -> Payment {
    Payment {
        id: None,
        customer_id,
        customer_name: None,
        invoice_id,
        invoice_number: None,
        amount,
        date: date.to_string(),
        notes: None,
        created_at: None,
    }
}

fn customer(store: &mut Store, name: &str, phone: &str, notes: Option<&str>) -> i32 {
    let c = create_customer_at(
        store,
        name.to_string(),
        phone.to_string(),
        "Main Street".to_string(),
        notes.map(|n| n.to_string()),
        "2024-01-01T00:00:00+00:00".to_string(),
    )
    .unwrap();
    c.id.unwrap()
}

#[test]
fn ledger_of_two_invoices_and_one_payment() {
    let mut store = Store::new();
    let c = customer(&mut store, "Amal", "0100", None);
    create_invoice_at(&mut store, invoice("A-1", c, "2024-01-01", 10000), "t1".to_string()).unwrap();
    create_invoice_at(&mut store, invoice("A-2", c, "2024-06-01", 20000), "t2".to_string()).unwrap();
    create_payment_at(&mut store, payment(c, None, "2024-03-01", 5000), "t3".to_string()).unwrap();
    let r = get_transactions(&store, c, "2024-01-01".to_string(), Some("2024-12-31".to_string()));
    assert_eq!(r.data.len(), 3);
    assert_eq!(r.data[0].date, "2024-01-01");
    assert_eq!(r.data[0].transaction_type, "invoice");
    assert_eq!(r.data[0].reference, Some("A-1".to_string()));
    assert_eq!(r.data[0].amount, 10000);
    assert_eq!(r.data[1].date, "2024-03-01");
    assert_eq!(r.data[1].transaction_type, "payment");
    assert_eq!(r.data[1].reference, None);
    assert_eq!(r.data[1].amount, 5000);
    assert_eq!(r.data[2].date, "2024-06-01");
    assert_eq!(r.data[2].transaction_type, "invoice");
    assert_eq!(r.data[2].customer_name, "Amal");
    assert_eq!(r.data[2].customer_phone, "0100");
    assert_eq!(r.data[2].created_at, "t2");
    assert_eq!(r.total_invoices, 30000);
    assert_eq!(r.total_payments, 5000);
    assert_eq!(r.remaining_total, 25000);
}

#[test]
fn ledger_keeps_to_its_span_and_its_customer() {
    let mut store = Store::new();
    let a = customer(&mut store, "Amal", "0100", None);
    let b = customer(&mut store, "Basil", "0200", None);
    create_invoice_at(&mut store, invoice("A-1", a, "2023-12-31", 100), "t1".to_string()).unwrap();
    create_invoice_at(&mut store, invoice("A-2", a, "2024-02-01", 200), "t2".to_string()).unwrap();
    create_invoice_at(&mut store, invoice("B-1", b, "2024-02-01", 400), "t3".to_string()).unwrap();
    create_payment_at(&mut store, payment(a, None, "2024-02-01", 50), "t4".to_string()).unwrap();
    create_payment_at(&mut store, payment(a, None, "2025-01-01", 70), "t5".to_string()).unwrap();
    let r = get_transactions(&store, a, "2024-01-01".to_string(), Some("2024-12-31".to_string()));
    assert_eq!(r.data.len(), 2);
    assert_eq!(r.data[0].transaction_type, "invoice");
    assert_eq!(r.data[1].transaction_type, "payment");
    assert_eq!(r.total_invoices, 200);
    assert_eq!(r.total_payments, 50);
    assert_eq!(r.remaining_total, 150);
    let open = get_transactions(&store, a, "2024-01-01".to_string(), None);
    assert_eq!(open.data.len(), 3);
    assert_eq!(open.data[2].date, "2025-01-01");
    assert_eq!(open.total_payments, 120);
    assert_eq!(open.remaining_total, 80);
}

#[test]
fn ledger_of_a_deleted_customer_is_empty_but_summed() {
    let mut store = Store::new();
    let a = customer(&mut store, "Amal", "0100", None);
    create_invoice_at(&mut store, invoice("A-1", a, "2024-02-01", 300), "t1".to_string()).unwrap();
    delete_customer(&mut store, a);
    let r = get_transactions(&store, a, "2024-01-01".to_string(), None);
    assert!(r.data.is_empty());
    assert_eq!(r.total_invoices, 300);
    assert_eq!(r.remaining_total, 300);
}

#[test]
fn customer_without_records_owes_nothing() {
    let mut store = Store::new();
    let a = customer(&mut store, "Amal", "0100", None);
    assert_eq!(get_customer_debt(&store, a), 0);
    assert_eq!(get_customer_debt(&store, 77), 0);
}

#[test]
fn customer_debt_goes_by_status() {
    let mut store = Store::new();
    let a = customer(&mut store, "Amal", "0100", None);
    let mut partial = invoice("A-1", a, "2024-01-01", 1000);
    partial.status = Some("partial".to_string());
    partial.paid_amount = Some(300);
    let mut paid = invoice("A-2", a, "2024-01-02", 5000);
    paid.status = Some("paid".to_string());
    paid.paid_amount = Some(5000);
    create_invoice_at(&mut store, partial, "t1".to_string()).unwrap();
    create_invoice_at(&mut store, paid, "t2".to_string()).unwrap();
    create_invoice_at(&mut store, invoice("A-3", a, "2024-01-03", 250), "t3".to_string()).unwrap();
    assert_eq!(get_customer_debt(&store, a), 700 + 0 + 250);
    let id = 2;
    update_invoice(&mut store, id, None, None, None, None, Some("Unpaid".to_string()), None).unwrap();
    assert_eq!(get_customer_debt(&store, a), 950);
    update_invoice(&mut store, id, None, None, None, None, Some("unpaid".to_string()), None).unwrap();
    assert_eq!(get_customer_debt(&store, a), 5950);
}

#[test]
fn debts_list_one_row_per_customer_largest_first() {
    let mut store = Store::new();
    let a = customer(&mut store, "Amal", "0100", None);
    let b = customer(&mut store, "Basil", "0200", Some("wholesale"));
    let c = customer(&mut store, "Chadi", "0300", None);
    create_invoice_at(&mut store, invoice("A-1", a, "2024-01-01", 1000), "t1".to_string()).unwrap();
    create_invoice_at(&mut store, invoice("B-1", b, "2024-01-01", 700), "t2".to_string()).unwrap();
    create_invoice_at(&mut store, invoice("B-2", b, "2024-01-05", 900), "t3".to_string()).unwrap();
    create_payment_at(&mut store, payment(a, None, "2024-01-02", 1000), "t4".to_string()).unwrap();
    create_payment_at(&mut store, payment(b, Some(2), "2024-01-03", 100), "t5".to_string()).unwrap();
    create_payment_at(&mut store, payment(c, None, "2024-01-04", 40), "t6".to_string()).unwrap();
    let all = get_all_debts(&store, Some(true), None);
    assert_eq!(all.len(), 3);
    assert_eq!((all[0].id, all[0].total_invoices, all[0].total_payments, all[0].total_debt), (b, 1600, 100, 1500));
    assert_eq!((all[1].id, all[1].total_invoices, all[1].total_payments, all[1].total_debt), (a, 1000, 1000, 0));
    assert_eq!((all[2].id, all[2].total_invoices, all[2].total_payments, all[2].total_debt), (c, 0, 40, -40));
    assert_eq!(all[0].name, "Basil");
    assert_eq!(all[0].phone, "0200");
    let owing = get_all_debts(&store, None, None);
    assert_eq!(owing.iter().map(|d| d.id).collect::<Vec<i32>>(), vec![b, c]);
    let same = get_all_debts(&store, Some(false), None);
    assert_eq!(same.len(), 2);
    let found = get_all_debts(&store, Some(true), Some("WHOLE".to_string()));
    assert_eq!(found.iter().map(|d| d.id).collect::<Vec<i32>>(), vec![b]);
    let by_phone = get_all_debts(&store, Some(true), Some("030".to_string()));
    assert_eq!(by_phone.iter().map(|d| d.id).collect::<Vec<i32>>(), vec![c]);
}

#[test]
fn summary_adds_everything_up() {
    let mut store = Store::new();
    let empty = get_report_summary(&store);
    assert_eq!((empty.total_invoices, empty.total_payments, empty.total_debts, empty.customer_count), (0, 0, 0, 0));
    let a = customer(&mut store, "Amal", "0100", None);
    let b = customer(&mut store, "Basil", "0200", None);
    create_invoice_at(&mut store, invoice("A-1", a, "2024-01-01", 1000), "t1".to_string()).unwrap();
    create_invoice_at(&mut store, invoice("B-1", b, "2024-01-01", 700), "t2".to_string()).unwrap();
    create_payment_at(&mut store, payment(a, None, "2024-01-02", 250), "t3".to_string()).unwrap();
    let r = get_report_summary(&store);
    assert_eq!(r.total_invoices, 1700);
    assert_eq!(r.total_payments, 250);
    assert_eq!(r.total_debts, 1450);
    assert_eq!(r.customer_count, 2);
}

#[test]
fn sums_of_the_largest_amounts_do_not_overflow() {
    let mut store = Store::new();
    let a = customer(&mut store, "Amal", "0100", None);
    create_invoice_at(&mut store, invoice("A-1", a, "2024-01-01", i64::MAX), "t1".to_string()).unwrap();
    create_invoice_at(&mut store, invoice("A-2", a, "2024-01-01", i64::MAX), "t2".to_string()).unwrap();
    create_payment_at(&mut store, payment(a, None, "2024-01-02", i64::MIN), "t3".to_string()).unwrap();
    let r = get_report_summary(&store);
    assert_eq!(r.total_invoices, 2 * (i64::MAX as i128));
    assert_eq!(r.total_debts, 2 * (i64::MAX as i128) - (i64::MIN as i128));
}

#[test]
fn sums_of_a_ledger_agree_with_its_lines() {
    let mut store = Store::new();
    let a = customer(&mut store, "Amal", "0100", None);
    let b = customer(&mut store, "Basil", "0200", None);
    create_invoice_at(&mut store, invoice("A-1", a, "2024-02-01", 120), "t1".to_string()).unwrap();
    create_payment_at(&mut store, payment(a, None, "2024-02-01", 70), "t2".to_string()).unwrap();
    create_invoice_at(&mut store, invoice("A-2", a, "2024-01-15", 30), "t3".to_string()).unwrap();
    create_invoice_at(&mut store, invoice("B-1", b, "2024-01-20", 999), "t4".to_string()).unwrap();
    create_payment_at(&mut store, payment(a, Some(1), "2024-01-15", 5), "t5".to_string()).unwrap();
    create_payment_at(&mut store, payment(a, None, "2023-12-31", 1), "t6".to_string()).unwrap();
    let r = get_transactions(&store, a, "2024-01-01".to_string(), Some("2024-12-31".to_string()));
    let kinds: Vec<(&str, &str, i64)> =
        r.data.iter().map(|t| (t.date.as_str(), t.transaction_type.as_str(), t.amount)).collect();
    assert_eq!(
        kinds,
        vec![
            ("2024-01-15", "invoice", 30),
            ("2024-01-15", "payment", 5),
            ("2024-02-01", "invoice", 120),
            ("2024-02-01", "payment", 70),
        ]
    );
    let billed: i128 =
        r.data.iter().filter(|t| t.transaction_type == "invoice").map(|t| t.amount as i128).sum();
    let paid: i128 =
        r.data.iter().filter(|t| t.transaction_type == "payment").map(|t| t.amount as i128).sum();
    assert_eq!(r.total_invoices, billed);
    assert_eq!(r.total_payments, paid);
    assert_eq!(r.remaining_total, billed - paid);
    assert_eq!(r.data[1].record_id, 2);
    assert_eq!(r.data[1].customer_id, a);
}
