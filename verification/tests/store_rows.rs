use bookkeeping::{create_customer_at, create_invoice_at, get_all_debts, get_customer_by_id, Customer,
    ErrorKind, Invoice, InvoiceItem, Payment, Store};

fn customer(id: Option<i32>, name: &str, at: Option<&str>) -> Customer {
    Customer {
        id,
        name: name.to_string(),
        phone: "0".to_string(),
        address: "x".to_string(),
        notes: None,
        created_at: at.map(|t| t.to_string()),
    }
}

fn invoice(id: Option<i32>, number: &str, customer_id: i32, total: i64) -> Invoice {
    Invoice {
        id,
        invoice_number: number.to_string(),
        customer_id,
        customer_name: None,
        date: "2024-01-01".to_string(),
        total,
        status: None,
        paid_amount: None,
        remaining_amount: None,
        created_at: Some("t".to_string()),
    }
}

fn item(id: Option<i32>) -> InvoiceItem {
    InvoiceItem { id, invoice_id: 1, product_name: "Sand".to_string(), unit_price: 1, quantity: 1, total: 1 }
}

fn payment(id: Option<i32>, customer_id: i32, amount: i64) -> Payment {
    Payment {
        id,
        customer_id,
        customer_name: None,
        invoice_id: None,
        invoice_number: None,
        amount,
        date: "2024-01-02".to_string(),
        notes: None,
        created_at: Some("t".to_string()),
    }
}

#[test]
fn a_store_made_of_rows_answers_like_any_other() {
    let store = Store::from_rows(
        vec![customer(Some(2), "Amal", Some("t1")), customer(Some(5), "Basil", Some("t2"))],
        vec![invoice(Some(1), "A-1", 2, 900), invoice(Some(4), "B-1", 5, 100)],
        vec![item(Some(3)), item(Some(9))],
        vec![payment(Some(7), 2, 400)],
    )
    .unwrap();
    assert_eq!(get_customer_by_id(&store, 5).unwrap().name, "Basil");
    assert_eq!(get_customer_by_id(&store, 3), None);
    let debts = get_all_debts(&store, Some(true), None);
    assert_eq!(debts.iter().map(|d| (d.id, d.total_debt)).collect::<Vec<_>>(), vec![(2, 500), (5, 100)]);
    assert_eq!(store.items().len(), 2);
    assert_eq!(store.invoices()[1].invoice_number, "B-1");
}

#[test]
fn a_store_made_of_rows_goes_on_after_the_last_id() {
    let mut store = Store::from_rows(
        vec![customer(Some(2), "Amal", Some("t1")), customer(Some(5), "Basil", Some("t2"))],
        vec![],
        vec![],
        vec![],
    )
    .unwrap();
    let c = create_customer_at(&mut store, "Chadi".to_string(), "0".to_string(), "x".to_string(), None, "t3".to_string())
        .unwrap();
    assert_eq!(c.id, Some(6));
    assert_eq!(create_invoice_at(&mut store, invoice(None, "A-1", 6, 1), "t".to_string()), Ok(1));
}

#[test]
fn empty_tables_make_an_empty_store() {
    let store = Store::from_rows(vec![], vec![], vec![], vec![]).unwrap();
    assert!(store.customers().is_empty());
    assert!(store.invoices().is_empty());
    assert!(store.items().is_empty());
    assert!(store.payments().is_empty());
}

#[test]
fn rows_without_proper_ids_are_refused() {
    let ok = || vec![customer(Some(1), "Amal", Some("t"))];
    assert!(Store::from_rows(vec![customer(None, "Amal", Some("t"))], vec![], vec![], vec![]).is_none());
    assert!(Store::from_rows(vec![customer(Some(0), "Amal", Some("t"))], vec![], vec![], vec![]).is_none());
    assert!(Store::from_rows(vec![customer(Some(-4), "Amal", Some("t"))], vec![], vec![], vec![]).is_none());
    assert!(Store::from_rows(
        vec![customer(Some(2), "Amal", Some("t")), customer(Some(2), "Basil", Some("t"))],
        vec![],
        vec![],
        vec![]
    )
    .is_none());
    assert!(Store::from_rows(
        vec![customer(Some(3), "Amal", Some("t")), customer(Some(2), "Basil", Some("t"))],
        vec![],
        vec![],
        vec![]
    )
    .is_none());
    assert!(Store::from_rows(ok(), vec![invoice(None, "A", 1, 1)], vec![], vec![]).is_none());
    assert!(Store::from_rows(ok(), vec![], vec![item(Some(2)), item(Some(1))], vec![]).is_none());
    assert!(Store::from_rows(ok(), vec![], vec![], vec![payment(Some(0), 1, 1)]).is_none());
    assert!(Store::from_rows(ok(), vec![], vec![item(Some(i32::MAX))], vec![]).is_some());
}

#[test]
fn rows_that_break_a_rule_of_the_tables_are_refused() {
    assert!(Store::from_rows(vec![customer(Some(1), "Amal", None)], vec![], vec![], vec![]).is_none());
    assert!(Store::from_rows(
        vec![],
        vec![invoice(Some(1), "A-1", 1, 1), invoice(Some(2), "A-2", 1, 1), invoice(Some(3), "A-1", 1, 1)],
        vec![],
        vec![]
    )
    .is_none());
    let mut named = invoice(Some(1), "A-1", 1, 1);
    named.customer_name = Some("Amal".to_string());
    assert!(Store::from_rows(vec![], vec![named], vec![], vec![]).is_none());
    let mut left = invoice(Some(1), "A-1", 1, 1);
    left.remaining_amount = Some(5);
    assert!(Store::from_rows(vec![], vec![left], vec![], vec![]).is_none());
    let mut untimed = invoice(Some(1), "A-1", 1, 1);
    untimed.created_at = None;
    assert!(Store::from_rows(vec![], vec![untimed], vec![], vec![]).is_none());
    let mut p = payment(Some(1), 1, 1);
    p.invoice_number = Some("A-1".to_string());
    assert!(Store::from_rows(vec![], vec![], vec![], vec![p]).is_none());
    let mut q = payment(Some(1), 1, 1);
    q.customer_name = Some("Amal".to_string());
    assert!(Store::from_rows(vec![], vec![], vec![], vec![q]).is_none());
    let mut r = payment(Some(1), 1, 1);
    r.created_at = None;
    assert!(Store::from_rows(vec![], vec![], vec![], vec![r]).is_none());
    let mut free = invoice(Some(1), "A-1", 1, 1);
    free.status = None;
    free.paid_amount = None;
    assert!(Store::from_rows(vec![], vec![free], vec![], vec![]).is_some());
}

#[test]
fn counts_of_ids_can_be_raised_but_not_lowered() {
    let mut store = Store::from_rows(
        vec![customer(Some(2), "Amal", Some("t1"))],
        vec![],
        vec![item(Some(4))],
        vec![],
    )
    .unwrap();
    assert_eq!(store.last_ids(), (2, 0, 4, 0));
    store.raise_last_ids(10, 3, 1, -5);
    assert_eq!(store.last_ids(), (10, 3, 4, 0));
    let c = create_customer_at(&mut store, "Basil".to_string(), "0".to_string(), "x".to_string(), None, "t".to_string())
        .unwrap();
    assert_eq!(c.id, Some(11));
    assert_eq!(create_invoice_at(&mut store, invoice(None, "A-1", 11, 1), "t".to_string()), Ok(4));
    assert_eq!(store.last_ids(), (11, 4, 4, 0));
    assert_eq!(Store::new().last_ids(), (0, 0, 0, 0));
}

#[test]
fn a_full_table_takes_no_more_records() {
    let mut store = Store::new();
    store.raise_last_ids(i32::MAX, i32::MAX - 1, i32::MAX, i32::MAX);
    let r = create_customer_at(&mut store, "Amal".to_string(), "0".to_string(), "x".to_string(), None, "t".to_string());
    assert_eq!(r, Err(ErrorKind::QueryFailed));
    assert!(store.customers().is_empty());
    assert_eq!(create_invoice_at(&mut store, invoice(None, "A-1", 1, 1), "t".to_string()), Ok(i32::MAX));
    assert_eq!(
        create_invoice_at(&mut store, invoice(None, "A-2", 1, 1), "t".to_string()),
        Err(ErrorKind::QueryFailed)
    );
    assert_eq!(bookkeeping::create_invoice_item(&mut store, item(None)), Err(ErrorKind::QueryFailed));
    assert_eq!(
        bookkeeping::create_payment_at(&mut store, payment(None, 1, 1), "t".to_string()),
        Err(ErrorKind::QueryFailed)
    );
    assert_eq!(store.invoices().len(), 1);
    assert!(store.items().is_empty());
    assert!(store.payments().is_empty());
}

#[test]
fn each_kind_of_error_has_its_words() {
    let all = [
        ErrorKind::StorageUnavailable,
        ErrorKind::QueryFailed,
        ErrorKind::TemplateMissing,
        ErrorKind::RenderFailed,
        ErrorKind::WriteFailed,
    ];
    let words: Vec<String> = all.iter().map(|e| e.message()).collect();
    assert_eq!(words[1], "the store refused the statement");
    assert_eq!(words[2], "the report template is missing");
    for i in 0..words.len() {
        for j in 0..i {
            assert_ne!(words[i], words[j]);
        }
    }
}
