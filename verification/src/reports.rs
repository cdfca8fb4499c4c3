//! The text of the printed reports: amounts with two decimals, the rows of a
//! report as tuples of quoted texts, and a template with its placeholders
//! filled in. Turning that text into a document is left to the caller.

use vstd::prelude::*;
use crate::debts::{invoice_selected, invoice_total, invoice_date_key, invoice_sum, picks_invoice,
    far_future, window_view};
use crate::invoices::customer_of;
use crate::listing::{lemma_filter_step, listed, sum_of};
use crate::models::{InvoiceView, InvoiceWithCustomer, InvoiceWithCustomerView, InvoicesResponse,
    InvoicesResponseView, Transaction, TransactionView, TransactionsResponse,
    TransactionsResponseView, views, opt_text};
use crate::order::{SortKey, arrange, key_views};
use crate::store::{Store, StoreView};
use crate::text::to_chars;

verus! {

/// The decimal digit `d`, for `d` from 0 to 9.
pub open spec fn digit(d: int) -> char {
    (48 + d) as u8 as char
}

/// The decimal numeral of `n`, without leading zeros.
pub open spec fn decimal(n: nat) -> Seq<char>
    decreases n,
{
    if n < 10 {
        seq![digit(n as int)]
    } else {
        decimal(n / 10).push(digit((n % 10) as int))
    }
}

/// An amount of hundredths as a numeral with two decimals: 12345 is
/// `123.45`, -5 is `-0.05`.
pub open spec fn amount_text(v: int) -> Seq<char> {
    let a = if v < 0 { -v } else { v };
    let body = decimal((a / 100) as nat) + seq!['.', digit((a % 100) / 10), digit(a % 10)];
    if v < 0 {
        seq!['-'] + body
    } else {
        body
    }
}

/// The digits in `s`, last one first.
pub open spec fn digits_reversed(s: Seq<u8>) -> Seq<char>
    decreases s.len(),
{
    if s.len() == 0 {
        Seq::empty()
    } else {
        seq![digit(s.last() as int)] + digits_reversed(s.drop_last())
    }
}

fn digit_text(d: u8) -> (r: &'static str)
    requires
        d <= 9,
    ensures
        r@ == seq![digit(d as int)],
{
    proof {
        reveal_strlit("0");
        reveal_strlit("1");
        reveal_strlit("2");
        reveal_strlit("3");
        reveal_strlit("4");
        reveal_strlit("5");
        reveal_strlit("6");
        reveal_strlit("7");
        reveal_strlit("8");
        reveal_strlit("9");
    }
    let r = if d == 0 {
        "0"
    } else if d == 1 {
        "1"
    } else if d == 2 {
        "2"
    } else if d == 3 {
        "3"
    } else if d == 4 {
        "4"
    } else if d == 5 {
        "5"
    } else if d == 6 {
        "6"
    } else if d == 7 {
        "7"
    } else if d == 8 {
        "8"
    } else {
        "9"
    };
    assert(r@ =~= seq![digit(d as int)]);
    r
}

/// The decimal numeral of `n`.
pub fn decimal_text(n: u128) -> (r: String)
    ensures
        r@ == decimal(n as nat),
{
    let mut digits: Vec<u8> = Vec::new();
    let mut rest: u128 = n;
    proof {
        assert(decimal(n as nat) + digits_reversed(digits@) =~= decimal(n as nat));
    }
    while rest >= 10
        invariant
            forall|j: int| 0 <= j < digits.len() ==> digits@[j] <= 9,
            decimal(n as nat) == decimal(rest as nat) + digits_reversed(digits@),
        decreases rest,
    {
        let d: u8 = (rest % 10) as u8;
        let ghost before = digits@;
        digits.push(d);
        proof {
            assert(digits@.drop_last() =~= before);
            assert(decimal(rest as nat) + digits_reversed(before) =~= decimal((rest / 10) as nat)
                + digits_reversed(digits@));
        }
        rest = rest / 10;
    }
    let mut out = String::new();
    out.append(digit_text(rest as u8));
    let mut i: usize = digits.len();
    proof {
        assert(digits@.take(i as int) =~= digits@);
        assert(out@ =~= decimal(rest as nat));
    }
    while i > 0
        invariant
            i <= digits.len(),
            forall|j: int| 0 <= j < digits.len() ==> digits@[j] <= 9,
            decimal(n as nat) == out@ + digits_reversed(digits@.take(i as int)),
        decreases i,
    {
        let ghost shown = out@;
        proof {
            assert(digits@.take(i as int).drop_last() =~= digits@.take(i - 1));
            assert(digits@.take(i as int).last() == digits@[i - 1]);
        }
        i -= 1;
        out.append(digit_text(digits[i]));
        proof {
            assert(shown + digits_reversed(digits@.take(i + 1)) =~= out@ + digits_reversed(
                digits@.take(i as int),
            ));
        }
    }
    proof {
        assert(out@ + digits_reversed(digits@.take(0)) =~= out@);
    }
    out
}

/// An amount of hundredths as a numeral with two decimals.
pub fn format_amount(v: i128) -> (r: String)
    ensures
        r@ == amount_text(v as int),
{
    let a: u128 = if v >= 0 {
        v as u128
    } else {
        (-(v + 1)) as u128 + 1
    };
    let whole_part: u128 = a / 100;
    let cents: u8 = (a % 100) as u8;
    let tens: u8 = cents / 10;
    let units: u8 = cents % 10;
    let ghost sign: Seq<char> = if v < 0 { seq!['-'] } else { Seq::empty() };
    proof {
        vstd::arithmetic::div_mod::lemma_mod_mod(a as int, 10, 10);
        assert(units == a % 10);
        reveal_strlit("-");
        reveal_strlit(".");
    }
    let mut out = String::new();
    if v < 0 {
        out.append("-");
    }
    assert(out@ =~= sign);
    let whole = decimal_text(whole_part);
    out.append(whole.as_str());
    let ghost with_whole = out@;
    out.append(".");
    let ghost with_point = out@;
    out.append(digit_text(tens));
    let ghost with_tens = out@;
    out.append(digit_text(units));
    proof {
        let body = decimal(whole_part as nat) + seq!['.', digit(tens as int), digit(units as int)];
        assert(with_whole == sign + decimal(whole_part as nat));
        assert(with_point == with_whole + seq!['.']);
        assert(with_tens == with_point + seq![digit(tens as int)]);
        assert(out@ == with_tens + seq![digit(units as int)]);
        assert(out@ =~= sign + body);
        assert(Seq::<char>::empty() + body =~= body);
    }
    out
}

/// The views of a sequence of texts.
pub open spec fn texts(parts: Seq<String>) -> Seq<Seq<char>> {
    parts.map_values(|s: String| s@)
}

/// The texts in `parts`, one after the other, with `sep` between neighbours.
pub open spec fn joined(parts: Seq<Seq<char>>, sep: Seq<char>) -> Seq<char>
    decreases parts.len(),
{
    if parts.len() == 0 {
        Seq::empty()
    } else if parts.len() == 1 {
        parts[0]
    } else {
        joined(parts.drop_last(), sep) + sep + parts.last()
    }
}

/// The texts in `parts` with `sep` between neighbours.
pub fn join(parts: &Vec<String>, sep: &str) -> (r: String)
    ensures
        r@ == joined(texts(parts@), sep@),
{
    let ghost all = texts(parts@);
    let mut out = String::new();
    let mut k: usize = 0;
    proof {
        assert(all.take(0) =~= Seq::empty());
    }
    while k < parts.len()
        invariant
            k <= parts.len(),
            all == texts(parts@),
            out@ == joined(all.take(k as int), sep@),
        decreases parts.len() - k,
    {
        if k > 0 {
            out.append(sep);
        }
        out.append(parts[k].as_str());
        proof {
            let next = all.take(k + 1);
            assert(next.drop_last() =~= all.take(k as int));
            assert(next.last() == parts@[k as int]@);
            if k == 0 {
                assert(out@ =~= next[0]);
            }
        }
        k += 1;
    }
    proof {
        assert(all.take(k as int) =~= all);
    }
    out
}

/// A row of a report: the fields in double quotes, separated by commas, in
/// round brackets, such as `("12.50", "2024-03-01")`. The fields are written
/// as they are; a quote inside a field is not escaped.
pub open spec fn quoted_tuple(fields: Seq<Seq<char>>) -> Seq<char> {
    "(\""@ + joined(fields, "\", \""@) + "\")"@
}

/// A row of a report made of `fields`.
pub fn quoted_tuple_text(fields: &Vec<String>) -> (r: String)
    ensures
        r@ == quoted_tuple(texts(fields@)),
{
    let inner = join(fields, "\", \"");
    let mut out = String::new();
    out.append("(\"");
    out.append(inner.as_str());
    out.append("\")");
    assert(out@ =~= quoted_tuple(texts(fields@)));
    out
}

/// `text` with every match of `pattern` replaced by `with`. The text is read
/// from the left: where the pattern stands, `with` is put and reading goes on
/// behind the match, so that no match overlaps an earlier one and what was
/// put in is not read again; every other character is copied. An empty
/// pattern matches nowhere here, and the text stays as it is.
pub open spec fn replaced(text: Seq<char>, pattern: Seq<char>, with: Seq<char>) -> Seq<char>
    decreases text.len(),
{
    if pattern.len() == 0 || text.len() < pattern.len() {
        text
    } else if text.subrange(0, pattern.len() as int) == pattern {
        with + replaced(text.skip(pattern.len() as int), pattern, with)
    } else {
        seq![text[0]] + replaced(text.skip(1), pattern, with)
    }
}

/// `text` with every match of `pattern` replaced by `with`, for a pattern
/// that is not empty.
///
/// Calls `str::replace` of the standard library, which replaces all matches
/// of the pattern; of matches that overlap it takes the first. The contract
/// states that result. The empty pattern is left out, because the library's
/// description does not say what it matches.
#[verifier::external_body]
fn replace_all(text: &str, pattern: &str, with: &str) -> (r: String)
    requires
        pattern@.len() > 0,
    ensures
        r@ == replaced(text@, pattern@, with@),
{
    text.replace(pattern, with)
}

/// The views of a list of placeholders with their values.
pub open spec fn pair_texts(subs: Seq<(String, String)>) -> Seq<(Seq<char>, Seq<char>)> {
    subs.map_values(|p: (String, String)| (p.0@, p.1@))
}

/// A template with placeholders filled in one after the other: each
/// placeholder of `subs`, in turn, is replaced by its value in the text that
/// the earlier replacements left, values put in earlier included. A
/// placeholder that is empty is passed over.
pub open spec fn filled(template: Seq<char>, subs: Seq<(Seq<char>, Seq<char>)>) -> Seq<char>
    decreases subs.len(),
{
    if subs.len() == 0 {
        template
    } else {
        replaced(filled(template, subs.drop_last()), subs.last().0, subs.last().1)
    }
}

/// Fills the placeholders of `subs` into `template`, one after the other. A
/// placeholder that is empty is passed over.
pub fn fill(template: &str, subs: &Vec<(String, String)>) -> (r: String)
    ensures
        r@ == filled(template@, pair_texts(subs@)),
{
    let ghost all = pair_texts(subs@);
    let mut out = template.to_owned();
    let mut k: usize = 0;
    proof {
        assert(all.take(0) =~= Seq::empty());
    }
    while k < subs.len()
        invariant
            k <= subs.len(),
            all == pair_texts(subs@),
            out@ == filled(template@, all.take(k as int)),
        decreases subs.len() - k,
    {
        proof {
            assert(all.take(k + 1).drop_last() =~= all.take(k as int));
            assert(all.take(k + 1).last() == all[k as int]);
        }
        if !subs[k].0.as_str().is_empty() {
            out = replace_all(out.as_str(), subs[k].0.as_str(), subs[k].1.as_str());
        }
        k += 1;
    }
    proof {
        assert(all.take(k as int) =~= all);
    }
    out
}

/// An optional text, or the empty text.
pub open spec fn or_empty(t: Option<Seq<char>>) -> Seq<char> {
    if t is Some {
        t->0
    } else {
        Seq::empty()
    }
}

fn text_or_empty(t: &Option<String>) -> (r: String)
    ensures
        r@ == or_empty(opt_text(*t)),
{
    match t {
        Some(s) => s.clone(),
        None => String::new(),
    }
}

/// The word that a ledger row shows for a payment.
pub open spec fn payment_label() -> Seq<char> {
    "\u{62f}\u{641}\u{639}\u{629}"@
}

/// The word that a ledger row shows for an invoice.
pub open spec fn invoice_label() -> Seq<char> {
    "\u{641}\u{627}\u{62a}\u{648}\u{631}\u{629}"@
}

/// The row of a ledger line: amount, kind, date, and the invoice number or
/// nothing. Every line that is not a payment is shown as an invoice.
pub open spec fn transaction_row(t: TransactionView) -> Seq<char> {
    quoted_tuple(
        seq![
            amount_text(t.amount),
            if t.transaction_type == "payment"@ {
                payment_label()
            } else {
                invoice_label()
            },
            t.date,
            or_empty(t.reference),
        ],
    )
}

/// The rows of a ledger, one to a line, separated by commas.
pub open spec fn transaction_rows(data: Seq<TransactionView>) -> Seq<char> {
    joined(data.map_values(|t: TransactionView| transaction_row(t)), ",\n"@)
}

/// The rows of a ledger, one to a line, separated by commas.
pub fn transaction_rows_text(data: &Vec<Transaction>) -> (r: String)
    ensures
        r@ == transaction_rows(views(data@)),
{
    let payment = "payment".to_owned();
    let mut lines: Vec<String> = Vec::new();
    let mut k: usize = 0;
    while k < data.len()
        invariant
            k <= data.len(),
            payment@ == "payment"@,
            lines.len() == k,
            forall|i: int| 0 <= i < k ==> (#[trigger] lines@[i])@ == transaction_row(data@[i]@),
        decreases data.len() - k,
    {
        let t = &data[k];
        let label = if t.transaction_type == payment {
            "\u{62f}\u{641}\u{639}\u{629}"
        } else {
            "\u{641}\u{627}\u{62a}\u{648}\u{631}\u{629}"
        };
        let mut fields: Vec<String> = Vec::new();
        fields.push(format_amount(t.amount as i128));
        fields.push(label.to_owned());
        fields.push(t.date.clone());
        fields.push(text_or_empty(&t.reference));
        proof {
            assert(texts(fields@) =~= seq![
                amount_text(t@.amount),
                if t@.transaction_type == "payment"@ {
                    payment_label()
                } else {
                    invoice_label()
                },
                t@.date,
                or_empty(t@.reference),
            ]);
        }
        lines.push(quoted_tuple_text(&fields));
        k += 1;
    }
    proof {
        assert(texts(lines@) =~= views(data@).map_values(|t: TransactionView| transaction_row(t)));
    }
    join(&lines, ",\n")
}

/// The placeholders of the ledger report with their values, in the order in
/// which they are filled in.
pub open spec fn transaction_fields(
    r: TransactionsResponseView,
    customer_name: Seq<char>,
    customer_phone: Seq<char>,
    customer_address: Seq<char>,
    from_date: Seq<char>,
    to_date: Option<Seq<char>>,
) -> Seq<(Seq<char>, Seq<char>)> {
    seq![
        ("{rows}"@, transaction_rows(r.data)),
        ("{total_invoices}"@, amount_text(r.total_invoices)),
        ("{total_payments}"@, amount_text(r.total_payments)),
        ("{remaining_total}"@, amount_text(r.remaining_total)),
        ("{name}"@, customer_name),
        ("{phone}"@, customer_phone),
        ("{address}"@, customer_address),
        ("{from_date}"@, from_date),
        ("{to_date}"@, or_empty(to_date)),
    ]
}

/// The text of the ledger report: `template` with the rows of the ledger,
/// its three sums with two decimals, the customer's name, phone and address
/// and the two dates filled in, in that order. A missing end date is filled
/// in as the empty text.
pub fn transactions_report(
    template: &str,
    response: &TransactionsResponse,
    customer_name: &str,
    customer_phone: &str,
    customer_address: &str,
    from_date: &str,
    to_date: &Option<String>,
) -> (r: String)
    ensures
        r@ == filled(
            template@,
            transaction_fields(
                response@,
                customer_name@,
                customer_phone@,
                customer_address@,
                from_date@,
                opt_text(*to_date),
            ),
        ),
{
    let mut subs: Vec<(String, String)> = Vec::new();
    subs.push(("{rows}".to_owned(), transaction_rows_text(&response.data)));
    subs.push(("{total_invoices}".to_owned(), format_amount(response.total_invoices)));
    subs.push(("{total_payments}".to_owned(), format_amount(response.total_payments)));
    subs.push(("{remaining_total}".to_owned(), format_amount(response.remaining_total)));
    subs.push(("{name}".to_owned(), customer_name.to_owned()));
    subs.push(("{phone}".to_owned(), customer_phone.to_owned()));
    subs.push(("{address}".to_owned(), customer_address.to_owned()));
    subs.push(("{from_date}".to_owned(), from_date.to_owned()));
    subs.push(("{to_date}".to_owned(), text_or_empty(to_date)));
    proof {
        assert(pair_texts(subs@) =~= transaction_fields(
            response@,
            customer_name@,
            customer_phone@,
            customer_address@,
            from_date@,
            opt_text(*to_date),
        ));
    }
    fill(template, &subs)
}

/// An invoice with its customer, as the listings show it.
pub open spec fn customer_joined(s: StoreView) -> spec_fn(InvoiceView) -> InvoiceWithCustomerView {
    |v: InvoiceView| s.invoice_with_customer(v)
}

impl StoreView {
    /// The invoices dated from `from` to `to`, or to the far future where no
    /// end is given, of one customer or of all: each with its customer,
    /// earliest date first, and the sum of their totals.
    pub open spec fn invoices_between(
        self,
        from: Seq<char>,
        to: Option<Seq<char>>,
        customer: Option<i32>,
    ) -> InvoicesResponseView {
        let end = if to is Some { to->0 } else { far_future() };
        let picked = self.invoices.filter(invoice_selected(customer, Some((from, end))));
        InvoicesResponseView {
            data: arrange(
                picked.map_values(customer_joined(self)),
                picked.map_values(invoice_date_key()),
                false,
            ),
            total: sum_of(picked.map_values(invoice_total())),
        }
    }

    /// The address of the customer `id`, or the empty text where the store
    /// does not hold that customer.
    pub open spec fn address_of(self, id: i32) -> Seq<char> {
        if self.customer(id) is Some {
            self.customer(id)->0.address
        } else {
            Seq::empty()
        }
    }

    /// The row of an invoice in the report of invoices: an empty field, the
    /// total, and the phone, address and name of the customer, each empty
    /// where it is not known.
    pub open spec fn invoice_row(self) -> spec_fn(InvoiceWithCustomerView) -> Seq<char> {
        |w: InvoiceWithCustomerView|
            quoted_tuple(
                seq![
                    Seq::empty(),
                    amount_text(w.total),
                    or_empty(w.customer_phone),
                    self.address_of(w.customer_id),
                    or_empty(w.customer_name),
                ],
            )
    }

    /// The rows of the report of invoices, one to a line, separated by commas.
    pub open spec fn invoice_rows(self, data: Seq<InvoiceWithCustomerView>) -> Seq<char> {
        joined(data.map_values(self.invoice_row()), ",\n"@)
    }

    /// The placeholders of the report of invoices with their values, in the
    /// order in which they are filled in.
    pub open spec fn invoice_fields(
        self,
        r: InvoicesResponseView,
        company_name: Seq<char>,
        company_phone: Seq<char>,
        company_address: Seq<char>,
        from_date: Seq<char>,
        to_date: Option<Seq<char>>,
    ) -> Seq<(Seq<char>, Seq<char>)> {
        seq![
            ("{rows}"@, self.invoice_rows(r.data)),
            ("{total}"@, amount_text(r.total)),
            ("{company_name}"@, company_name),
            ("{phone}"@, company_phone),
            ("{address}"@, company_address),
            ("{from_date}"@, from_date),
            ("{to_date}"@, or_empty(to_date)),
        ]
    }
}

/// Lists the invoices dated from `from_date` to `to_date`, both included, or
/// to the end of the year 9999 where `to_date` is missing; with
/// `customer_id` only those of that customer. Each invoice comes with its
/// customer's name and phone and with what is left after the amount recorded
/// as paid, earliest date first, invoices of one date in the order of their
/// identifiers. Dates compare as texts. The total is the sum of the totals
/// of the invoices listed.
pub fn get_invoices(
    store: &Store,
    from_date: String,
    to_date: Option<String>,
    customer_id: Option<i32>,
) -> (r: InvoicesResponse)
    ensures
        r@ == store@.invoices_between(from_date@, opt_text(to_date), customer_id),
{
    let from = to_chars(from_date.as_str());
    let end = match &to_date {
        Some(t) => to_chars(t.as_str()),
        None => to_chars("9999-12-31"),
    };
    let window = Some((from, end));
    let total = invoice_sum(store, customer_id, &window);
    let ghost sv = store@;
    let ghost all = sv.invoices;
    let ghost pred = invoice_selected(customer_id, window_view(window));
    let ghost join = customer_joined(sv);
    let ghost key = invoice_date_key();
    let mut hits: Vec<InvoiceWithCustomer> = Vec::new();
    let mut keys: Vec<SortKey> = Vec::new();
    let mut k: usize = 0;
    proof {
        reveal(Seq::filter);
        assert(all.take(0).filter(pred) =~= Seq::empty());
    }
    while k < store.invoices.len()
        invariant
            k <= store.invoices.len(),
            sv == store@,
            all == views(store.invoices@),
            pred == invoice_selected(customer_id, window_view(window)),
            join == customer_joined(sv),
            key == invoice_date_key(),
            hits.len() == keys.len(),
            views(hits@) =~= all.take(k as int).filter(pred).map_values(join),
            key_views(keys@) =~= all.take(k as int).filter(pred).map_values(key),
        decreases store.invoices.len() - k,
    {
        let v = &store.invoices[k];
        proof {
            lemma_filter_step(all, k as int, pred);
        }
        if picks_invoice(v, customer_id, &window) {
            let ghost sel = all.take(k as int).filter(pred);
            let ghost hits_before = hits@;
            let ghost keys_before = keys@;
            let row = crate::invoices::with_customer(v, customer_of(store, v.customer_id));
            let key_k = SortKey::Text(to_chars(v.date.as_str()));
            hits.push(row);
            keys.push(key_k);
            proof {
                assert(views(hits@) =~= views(hits_before).push(row@));
                assert(key_views(keys@) =~= key_views(keys_before).push(key_k@));
                assert(sel.push(v@).map_values(join) =~= sel.map_values(join).push(join(v@)));
                assert(sel.push(v@).map_values(key) =~= sel.map_values(key).push(key(v@)));
            }
        }
        k += 1;
    }
    proof {
        assert(all.take(k as int) =~= all);
    }
    let data = listed(&hits, &keys, false, None, None);
    InvoicesResponse { data, total }
}

/// The rows of the report of invoices, one to a line, separated by commas.
/// The address of each customer is looked up in the store.
pub fn invoice_rows_text(store: &Store, data: &Vec<InvoiceWithCustomer>) -> (r: String)
    ensures
        r@ == store@.invoice_rows(views(data@)),
{
    let ghost sv = store@;
    let mut lines: Vec<String> = Vec::new();
    let mut k: usize = 0;
    while k < data.len()
        invariant
            k <= data.len(),
            sv == store@,
            lines.len() == k,
            forall|i: int| 0 <= i < k ==> (#[trigger] lines@[i])@ == sv.invoice_row()(data@[i]@),
        decreases data.len() - k,
    {
        let w = &data[k];
        let address = match customer_of(store, w.customer_id) {
            Some(c) => c.address.clone(),
            None => String::new(),
        };
        let mut fields: Vec<String> = Vec::new();
        fields.push(String::new());
        fields.push(format_amount(w.total as i128));
        fields.push(text_or_empty(&w.customer_phone));
        fields.push(address);
        fields.push(text_or_empty(&w.customer_name));
        proof {
            assert(texts(fields@) =~= seq![
                Seq::empty(),
                amount_text(w@.total),
                or_empty(w@.customer_phone),
                sv.address_of(w@.customer_id),
                or_empty(w@.customer_name),
            ]);
        }
        lines.push(quoted_tuple_text(&fields));
        k += 1;
    }
    proof {
        assert(texts(lines@) =~= views(data@).map_values(sv.invoice_row()));
    }
    join(&lines, ",\n")
}

/// The text of the report of invoices: `template` with the rows of the
/// invoices, their total with two decimals, the name, phone and address of
/// the company that issues the report, and the two dates filled in, in that
/// order. A missing end date is filled in as the empty text.
pub fn invoices_report(
    store: &Store,
    template: &str,
    response: &InvoicesResponse,
    company_name: &str,
    company_phone: &str,
    company_address: &str,
    from_date: &str,
    to_date: &Option<String>,
) -> (r: String)
    ensures
        r@ == filled(
            template@,
            store@.invoice_fields(
                response@,
                company_name@,
                company_phone@,
                company_address@,
                from_date@,
                opt_text(*to_date),
            ),
        ),
{
    let mut subs: Vec<(String, String)> = Vec::new();
    subs.push(("{rows}".to_owned(), invoice_rows_text(store, &response.data)));
    subs.push(("{total}".to_owned(), format_amount(response.total)));
    subs.push(("{company_name}".to_owned(), company_name.to_owned()));
    subs.push(("{phone}".to_owned(), company_phone.to_owned()));
    subs.push(("{address}".to_owned(), company_address.to_owned()));
    subs.push(("{from_date}".to_owned(), from_date.to_owned()));
    subs.push(("{to_date}".to_owned(), text_or_empty(to_date)));
    proof {
        assert(pair_texts(subs@) =~= store@.invoice_fields(
            response@,
            company_name@,
            company_phone@,
            company_address@,
            from_date@,
            opt_text(*to_date),
        ));
    }
    fill(template, &subs)
}

} // verus!
