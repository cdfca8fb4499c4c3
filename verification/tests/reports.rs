use bookkeeping::reports::{decimal_text, fill, invoice_rows_text, join, quoted_tuple_text,
    transaction_rows_text};
use bookkeeping::{create_customer_at, create_invoice_at, create_payment_at, format_amount,
    get_invoices, get_transactions, invoices_report, transactions_report, Invoice, Payment, Store,
    Transaction};

fn invoice(number: &str, customer_id: i32, date: &str, total: i64) -> Invoice {
    Invoice {
        id: None,
        invoice_number: number.to_string(),
        customer_id,
        customer_name: None,
        date: date.to_string(),
        total,
        status: None,
        paid_amount: None,
        remaining_amount: None,
        created_at: None,
    }
}

fn payment(customer_id: i32, date: &str, amount: i64) -> Payment {
    Payment {
        id: None,
        customer_id,
        customer_name: None,
        invoice_id: None,
        invoice_number: None,
        amount,
        date: date.to_string(),
        notes: None,
        created_at: None,
    }
}

fn setup() -> Store {
    let mut store = Store::new();
    create_customer_at(&mut store, "Amal".to_string(), "0100".to_string(), "North 1".to_string(), None, "t".to_string())
        .unwrap();
    create_customer_at(&mut store, "Basil".to_string(), "0200".to_string(), "South 2".to_string(), None, "t".to_string())
        .unwrap();
    create_invoice_at(&mut store, invoice("A-2", 1, "2024-06-01", 20000), "t1".to_string()).unwrap();
    create_invoice_at(&mut store, invoice("B-1", 2, "2024-02-01", 1234), "t2".to_string()).unwrap();
    create_invoice_at(&mut store, invoice("A-1", 1, "2024-01-01", 10000), "t3".to_string()).unwrap();
    create_invoice_at(&mut store, invoice("X-1", 9, "2024-03-01", 5), "t4".to_string()).unwrap();
    create_payment_at(&mut store, payment(1, "2024-03-01", 5000), "t5".to_string()).unwrap();
    store
}

#[test]
fn amounts_are_written_with_two_decimals() {
    assert_eq!(format_amount(0), "0.00");
    assert_eq!(format_amount(5), "0.05");
    assert_eq!(format_amount(50), "0.50");
    assert_eq!(format_amount(99), "0.99");
    assert_eq!(format_amount(100), "1.00");
    assert_eq!(format_amount(12345), "123.45");
    assert_eq!(format_amount(1000000), "10000.00");
    assert_eq!(format_amount(-1), "-0.01");
    assert_eq!(format_amount(-5), "-0.05");
    assert_eq!(format_amount(-12345), "-123.45");
    assert_eq!(format_amount(-100), "-1.00");
    assert_eq!(format_amount(i64::MAX as i128), "92233720368547758.07");
    assert_eq!(format_amount(i64::MIN as i128), "-92233720368547758.08");
    assert_eq!(format_amount(i128::MAX), "1701411834604692317316873037158841057.27");
    assert_eq!(format_amount(i128::MIN), "-1701411834604692317316873037158841057.28");
}

#[test]
fn numerals_have_no_leading_zeros() {
    assert_eq!(decimal_text(0), "0");
    assert_eq!(decimal_text(9), "9");
    assert_eq!(decimal_text(10), "10");
    assert_eq!(decimal_text(1002003), "1002003");
    assert_eq!(decimal_text(u128::MAX), "340282366920938463463374607431768211455");
}

#[test]
fn join_puts_the_separator_between_neighbours() {
    let parts = |v: &[&str]| v.iter().map(|s| s.to_string()).collect::<Vec<String>>();
    assert_eq!(join(&parts(&[]), ", "), "");
    assert_eq!(join(&parts(&["a"]), ", "), "a");
    assert_eq!(join(&parts(&["a", "b", "c"]), ", "), "a, b, c");
    assert_eq!(join(&parts(&["", ""]), "-"), "-");
    assert_eq!(join(&parts(&["a", "b"]), ""), "ab");
    assert_eq!(quoted_tuple_text(&parts(&["1.00", "x", ""])), "(\"1.00\", \"x\", \"\")");
    assert_eq!(quoted_tuple_text(&parts(&["a\"b"])), "(\"a\"b\")");
    assert_eq!(quoted_tuple_text(&parts(&[])), "(\"\")");
}

#[test]
fn fill_replaces_placeholders_one_after_the_other() {
    let pairs = |v: &[(&str, &str)]| v.iter().map(|p| (p.0.to_string(), p.1.to_string())).collect::<Vec<_>>();
    assert_eq!(fill("a {x} b {y} {x}", &pairs(&[("{x}", "1"), ("{y}", "2")])), "a 1 b 2 1");
    assert_eq!(fill("{x}", &pairs(&[("{x}", "{y}"), ("{y}", "z")])), "z");
    assert_eq!(fill("{x}", &pairs(&[("{y}", "z"), ("{x}", "{y}")])), "{y}");
    assert_eq!(fill("plain", &pairs(&[("{x}", "1")])), "plain");
    assert_eq!(fill("same", &pairs(&[])), "same");
    assert_eq!(fill("aaa", &pairs(&[("aa", "b")])), "ba");
}

#[test]
fn replacing_reads_from_the_left_and_never_twice() {
    let one = |text: &str, pattern: &str, with: &str| {
        fill(text, &vec![(pattern.to_string(), with.to_string())])
    };
    assert_eq!(one("aaaa", "aa", "b"), "bb");
    assert_eq!(one("aaaaa", "aa", "b"), "bba");
    assert_eq!(one("ab", "a", "aa"), "aab");
    assert_eq!(one("abab", "ab", "abab"), "abababab");
    assert_eq!(one("xyz", "xyz", ""), "");
    assert_eq!(one("xyz", "wxyz", "-"), "xyz");
    assert_eq!(one("", "a", "b"), "");
    assert_eq!(one("end{x}", "{x}", "!"), "end!");
    assert_eq!(one("{x}{x}", "{x}", "12"), "1212");
    assert_eq!(one("abcabc", "bc", ""), "aa");
    assert_eq!(one("مرحبا {name}", "{name}", "أمل"), "مرحبا أمل");
    assert_eq!(one("ééé", "éé", "e"), "eé");
    assert_eq!(one("aXbxc", "x", "-"), "aXb-c");
    let cases = [
        ("banana", "ana", "o"),
        ("banana", "a", ""),
        ("banana", "nan", "nana"),
        ("mississippi", "issi", "X"),
        ("mississippi", "ss", "s"),
        ("aaa", "a", "aa"),
        ("{a}{b}{a}", "{a}", "{b}"),
        ("日本語日本", "日本", "-"),
        ("abc", "abcd", "x"),
        ("abc", "c", "c"),
    ];
    for (text, pattern, with) in cases {
        assert_eq!(one(text, pattern, with), text.replace(pattern, with));
    }
}

#[test]
fn an_empty_placeholder_is_passed_over() {
    let pairs = |v: &[(&str, &str)]| v.iter().map(|p| (p.0.to_string(), p.1.to_string())).collect::<Vec<_>>();
    assert_eq!(fill("abc", &pairs(&[("", "-")])), "abc");
    assert_eq!(fill("a{x}c", &pairs(&[("", "-"), ("{x}", "b"), ("", "+")])), "abc");
    assert_eq!(fill("", &pairs(&[("", "-")])), "");
}

#[test]
fn ledger_rows_show_amount_kind_date_and_reference() {
    let store = setup();
    let r = get_transactions(&store, 1, "2024-01-01".to_string(), Some("2024-12-31".to_string()));
    assert_eq!(
        transaction_rows_text(&r.data),
        "(\"100.00\", \"فاتورة\", \"2024-01-01\", \"A-1\"),\n\
         (\"50.00\", \"دفعة\", \"2024-03-01\", \"\"),\n\
         (\"200.00\", \"فاتورة\", \"2024-06-01\", \"A-2\")"
    );
    assert_eq!(transaction_rows_text(&Vec::new()), "");
    let odd = Transaction {
        record_id: 1,
        transaction_type: "refund".to_string(),
        reference: None,
        customer_id: 1,
        customer_name: String::new(),
        customer_phone: String::new(),
        date: "d".to_string(),
        amount: -250,
        created_at: String::new(),
    };
    assert_eq!(transaction_rows_text(&vec![odd]), "(\"-2.50\", \"فاتورة\", \"d\", \"\")");
}

#[test]
fn ledger_report_fills_the_template() {
    let store = setup();
    let r = get_transactions(&store, 1, "2024-01-01".to_string(), None);
    let template = "#let c = \"{name}\" / {phone} / {address}\n#let span = ({from_date}, {to_date})\n\
                    #let sums = ({total_invoices}, {total_payments}, {remaining_total})\n#table({rows})";
    let text = transactions_report(template, &r, "Amal", "0100", "North 1", "2024-01-01", &None);
    assert_eq!(
        text,
        "#let c = \"Amal\" / 0100 / North 1\n#let span = (2024-01-01, )\n\
         #let sums = (300.00, 50.00, 250.00)\n#table((\"100.00\", \"فاتورة\", \"2024-01-01\", \"A-1\"),\n\
         (\"50.00\", \"دفعة\", \"2024-03-01\", \"\"),\n(\"200.00\", \"فاتورة\", \"2024-06-01\", \"A-2\"))"
    );
    let closed = transactions_report("{from_date}..{to_date}", &r, "", "", "", "a", &Some("b".to_string()));
    assert_eq!(closed, "a..b");
    assert_ne!(transactions_report("{rows}", &r, "", "", "", "", &None), "{rows}");
}

#[test]
fn invoices_of_a_span_come_earliest_first_with_their_total() {
    let store = setup();
    let all = get_invoices(&store, "2024-01-01".to_string(), None, None);
    let numbers = |r: &bookkeeping::InvoicesResponse| {
        r.data.iter().map(|v| v.invoice_number.clone()).collect::<Vec<_>>()
    };
    assert_eq!(numbers(&all), vec!["A-1", "B-1", "X-1", "A-2"]);
    assert_eq!(all.total, 31239);
    assert_eq!(all.data[0].customer_name, Some("Amal".to_string()));
    assert_eq!(all.data[0].remaining_amount, Some(10000));
    assert_eq!(all.data[2].customer_name, None);
    let some = get_invoices(&store, "2024-01-02".to_string(), Some("2024-03-01".to_string()), None);
    assert_eq!(numbers(&some), vec!["B-1", "X-1"]);
    assert_eq!(some.total, 1239);
    let own = get_invoices(&store, "2024-01-01".to_string(), Some("2024-12-31".to_string()), Some(1));
    assert_eq!(numbers(&own), vec!["A-1", "A-2"]);
    assert_eq!(own.total, 30000);
    let none = get_invoices(&store, "2025-01-01".to_string(), None, Some(1));
    assert!(none.data.is_empty());
    assert_eq!(none.total, 0);
    let late = get_invoices(&store, "2024-06-01".to_string(), Some("2024-06-01".to_string()), None);
    assert_eq!(numbers(&late), vec!["A-2"]);
}

#[test]
fn invoice_report_fills_the_template() {
    let store = setup();
    let r = get_invoices(&store, "2024-01-01".to_string(), Some("2024-03-31".to_string()), None);
    assert_eq!(
        invoice_rows_text(&store, &r.data),
        "(\"\", \"100.00\", \"0100\", \"North 1\", \"Amal\"),\n\
         (\"\", \"12.34\", \"0200\", \"South 2\", \"Basil\"),\n\
         (\"\", \"0.05\", \"\", \"\", \"\")"
    );
    let text = invoices_report(
        &store,
        "{company_name}|{phone}|{address}|{from_date}|{to_date}|{total}|{rows}",
        &r,
        "Works",
        "0551234567",
        "Riyadh",
        "2024-01-01",
        &Some("2024-03-31".to_string()),
    );
    assert_eq!(
        text,
        "Works|0551234567|Riyadh|2024-01-01|2024-03-31|112.39|(\"\", \"100.00\", \"0100\", \"North 1\", \"Amal\"),\n\
         (\"\", \"12.34\", \"0200\", \"South 2\", \"Basil\"),\n(\"\", \"0.05\", \"\", \"\", \"\")"
    );
}
