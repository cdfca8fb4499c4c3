//! The records that the store keeps and the rows that its listings return,
//! each with its mathematical view.
//!
//! Money is counted in whole numbers of the smallest currency unit: `i64` in a
//! stored record, `i128` wherever a value is a sum or a difference of stored
//! amounts, so that no aggregate can overflow. Views hold texts as sequences
//! of characters and amounts as unbounded integers.

use vstd::prelude::*;
use crate::listing::Record;

verus! {

/// The view of an optional text.
pub open spec fn opt_text(t: Option<String>) -> Option<Seq<char>> {
    match t {
        Some(s) => Some(s@),
        None => None,
    }
}

/// The view of an optional stored amount.
pub open spec fn opt_amount(a: Option<i64>) -> Option<int> {
    match a {
        Some(v) => Some(v as int),
        None => None,
    }
}

/// The view of an optional derived amount.
pub open spec fn opt_wide(a: Option<i128>) -> Option<int> {
    match a {
        Some(v) => Some(v as int),
        None => None,
    }
}

/// The views of a sequence of records.
pub open spec fn views<T: View>(rows: Seq<T>) -> Seq<T::V> {
    rows.map_values(|r: T| r@)
}

/// A copy of an optional text.
pub fn copy_opt_text(t: &Option<String>) -> (r: Option<String>)
    ensures
        r == *t,
{
    match t {
        Some(s) => Some(s.clone()),
        None => None,
    }
}

/// A customer.
#[derive(Debug, PartialEq, Eq)]
pub struct Customer {
    /// The identifier that the store assigned; absent before the customer is stored.
    pub id: Option<i32>,
    pub name: String,
    pub phone: String,
    pub address: String,
    pub notes: Option<String>,
    /// When the store took the customer in.
    pub created_at: Option<String>,
}

/// The view of a [`Customer`].
pub struct CustomerView {
    pub id: Option<i32>,
    pub name: Seq<char>,
    pub phone: Seq<char>,
    pub address: Seq<char>,
    pub notes: Option<Seq<char>>,
    pub created_at: Option<Seq<char>>,
}

impl View for Customer {
    type V = CustomerView;

    open spec fn view(&self) -> CustomerView {
        CustomerView {
            id: self.id,
            name: self.name@,
            phone: self.phone@,
            address: self.address@,
            notes: opt_text(self.notes),
            created_at: opt_text(self.created_at),
        }
    }
}

impl Clone for Customer {
    fn clone(&self) -> (r: Self)
        ensures
            r == *self,
    {
        Customer {
            id: self.id,
            name: self.name.clone(),
            phone: self.phone.clone(),
            address: self.address.clone(),
            notes: copy_opt_text(&self.notes),
            created_at: copy_opt_text(&self.created_at),
        }
    }
}

/// An invoice. Amounts are whole numbers of the smallest currency unit.
#[derive(Debug, PartialEq, Eq)]
pub struct Invoice {
    pub id: Option<i32>,
    /// The number printed on the invoice; no two stored invoices share one.
    pub invoice_number: String,
    pub customer_id: i32,
    /// Filled in by listings that look the customer up; absent in stored invoices.
    pub customer_name: Option<String>,
    pub date: String,
    pub total: i64,
    /// `unpaid`, `partial` or `paid` by convention; any text is kept as given.
    pub status: Option<String>,
    /// What the caller recorded as paid. Nothing keeps it equal to the payments made.
    pub paid_amount: Option<i64>,
    /// What is left of the total after the amount recorded as paid; computed
    /// by listings, absent in stored invoices.
    pub remaining_amount: Option<i128>,
    pub created_at: Option<String>,
}

/// The view of a [`Invoice`].
pub struct InvoiceView {
    pub id: Option<i32>,
    pub invoice_number: Seq<char>,
    pub customer_id: i32,
    pub customer_name: Option<Seq<char>>,
    pub date: Seq<char>,
    pub total: int,
    pub status: Option<Seq<char>>,
    pub paid_amount: Option<int>,
    pub remaining_amount: Option<int>,
    pub created_at: Option<Seq<char>>,
}

impl View for Invoice {
    type V = InvoiceView;

    open spec fn view(&self) -> InvoiceView {
        InvoiceView {
            id: self.id,
            invoice_number: self.invoice_number@,
            customer_id: self.customer_id,
            customer_name: opt_text(self.customer_name),
            date: self.date@,
            total: self.total as int,
            status: opt_text(self.status),
            paid_amount: opt_amount(self.paid_amount),
            remaining_amount: opt_wide(self.remaining_amount),
            created_at: opt_text(self.created_at),
        }
    }
}

impl Clone for Invoice {
    fn clone(&self) -> (r: Self)
        ensures
            r == *self,
    {
        Invoice {
            id: self.id,
            invoice_number: self.invoice_number.clone(),
            customer_id: self.customer_id,
            customer_name: copy_opt_text(&self.customer_name),
            date: self.date.clone(),
            total: self.total,
            status: copy_opt_text(&self.status),
            paid_amount: self.paid_amount,
            remaining_amount: self.remaining_amount,
            created_at: copy_opt_text(&self.created_at),
        }
    }
}

/// An invoice together with the name and phone of its customer.
#[derive(Debug, PartialEq, Eq)]
pub struct InvoiceWithCustomer {
    pub id: Option<i32>,
    pub invoice_number: String,
    pub customer_id: i32,
    pub customer_name: Option<String>,
    pub customer_phone: Option<String>,
    pub date: String,
    pub total: i64,
    pub status: Option<String>,
    pub paid_amount: Option<i64>,
    pub remaining_amount: Option<i128>,
    pub created_at: Option<String>,
}

/// The view of a [`InvoiceWithCustomer`].
pub struct InvoiceWithCustomerView {
    pub id: Option<i32>,
    pub invoice_number: Seq<char>,
    pub customer_id: i32,
    pub customer_name: Option<Seq<char>>,
    pub customer_phone: Option<Seq<char>>,
    pub date: Seq<char>,
    pub total: int,
    pub status: Option<Seq<char>>,
    pub paid_amount: Option<int>,
    pub remaining_amount: Option<int>,
    pub created_at: Option<Seq<char>>,
}

impl View for InvoiceWithCustomer {
    type V = InvoiceWithCustomerView;

    open spec fn view(&self) -> InvoiceWithCustomerView {
        InvoiceWithCustomerView {
            id: self.id,
            invoice_number: self.invoice_number@,
            customer_id: self.customer_id,
            customer_name: opt_text(self.customer_name),
            customer_phone: opt_text(self.customer_phone),
            date: self.date@,
            total: self.total as int,
            status: opt_text(self.status),
            paid_amount: opt_amount(self.paid_amount),
            remaining_amount: opt_wide(self.remaining_amount),
            created_at: opt_text(self.created_at),
        }
    }
}

impl Clone for InvoiceWithCustomer {
    fn clone(&self) -> (r: Self)
        ensures
            r == *self,
    {
        InvoiceWithCustomer {
            id: self.id,
            invoice_number: self.invoice_number.clone(),
            customer_id: self.customer_id,
            customer_name: copy_opt_text(&self.customer_name),
            customer_phone: copy_opt_text(&self.customer_phone),
            date: self.date.clone(),
            total: self.total,
            status: copy_opt_text(&self.status),
            paid_amount: self.paid_amount,
            remaining_amount: self.remaining_amount,
            created_at: copy_opt_text(&self.created_at),
        }
    }
}

/// One line of an invoice. The line total is the caller's; the store derives
/// nothing from price and quantity.
#[derive(Debug, PartialEq, Eq)]
pub struct InvoiceItem {
    pub id: Option<i32>,
    pub invoice_id: i32,
    pub product_name: String,
    pub unit_price: i64,
    pub quantity: i64,
    pub total: i64,
}

/// The view of a [`InvoiceItem`].
pub struct InvoiceItemView {
    pub id: Option<i32>,
    pub invoice_id: i32,
    pub product_name: Seq<char>,
    pub unit_price: int,
    pub quantity: int,
    pub total: int,
}

impl View for InvoiceItem {
    type V = InvoiceItemView;

    open spec fn view(&self) -> InvoiceItemView {
        InvoiceItemView {
            id: self.id,
            invoice_id: self.invoice_id,
            product_name: self.product_name@,
            unit_price: self.unit_price as int,
            quantity: self.quantity as int,
            total: self.total as int,
        }
    }
}

impl Clone for InvoiceItem {
    fn clone(&self) -> (r: Self)
        ensures
            r == *self,
    {
        InvoiceItem {
            id: self.id,
            invoice_id: self.invoice_id,
            product_name: self.product_name.clone(),
            unit_price: self.unit_price,
            quantity: self.quantity,
            total: self.total,
        }
    }
}

/// A product name that has appeared on an invoice line.
#[derive(Debug, PartialEq, Eq)]
pub struct Product {
    pub id: Option<i32>,
    pub name: String,
    pub unit_price: Option<i64>,
    pub created_at: Option<String>,
}

/// The view of a [`Product`].
pub struct ProductView {
    pub id: Option<i32>,
    pub name: Seq<char>,
    pub unit_price: Option<int>,
    pub created_at: Option<Seq<char>>,
}

impl View for Product {
    type V = ProductView;

    open spec fn view(&self) -> ProductView {
        ProductView {
            id: self.id,
            name: self.name@,
            unit_price: opt_amount(self.unit_price),
            created_at: opt_text(self.created_at),
        }
    }
}

impl Clone for Product {
    fn clone(&self) -> (r: Self)
        ensures
            r == *self,
    {
        Product {
            id: self.id,
            name: self.name.clone(),
            unit_price: self.unit_price,
            created_at: copy_opt_text(&self.created_at),
        }
    }
}

/// A payment by a customer, against one invoice or against the account as a whole.
#[derive(Debug, PartialEq, Eq)]
pub struct Payment {
    pub id: Option<i32>,
    pub customer_id: i32,
    /// Filled in by listings; absent in stored payments.
    pub customer_name: Option<String>,
    /// The invoice paid, or absent for a payment on account.
    pub invoice_id: Option<i32>,
    /// Filled in by listings; absent in stored payments.
    pub invoice_number: Option<String>,
    pub amount: i64,
    pub date: String,
    pub notes: Option<String>,
    pub created_at: Option<String>,
}

/// The view of a [`Payment`].
pub struct PaymentView {
    pub id: Option<i32>,
    pub customer_id: i32,
    pub customer_name: Option<Seq<char>>,
    pub invoice_id: Option<i32>,
    pub invoice_number: Option<Seq<char>>,
    pub amount: int,
    pub date: Seq<char>,
    pub notes: Option<Seq<char>>,
    pub created_at: Option<Seq<char>>,
}

impl View for Payment {
    type V = PaymentView;

    open spec fn view(&self) -> PaymentView {
        PaymentView {
            id: self.id,
            customer_id: self.customer_id,
            customer_name: opt_text(self.customer_name),
            invoice_id: self.invoice_id,
            invoice_number: opt_text(self.invoice_number),
            amount: self.amount as int,
            date: self.date@,
            notes: opt_text(self.notes),
            created_at: opt_text(self.created_at),
        }
    }
}

impl Clone for Payment {
    fn clone(&self) -> (r: Self)
        ensures
            r == *self,
    {
        Payment {
            id: self.id,
            customer_id: self.customer_id,
            customer_name: copy_opt_text(&self.customer_name),
            invoice_id: self.invoice_id,
            invoice_number: copy_opt_text(&self.invoice_number),
            amount: self.amount,
            date: self.date.clone(),
            notes: copy_opt_text(&self.notes),
            created_at: copy_opt_text(&self.created_at),
        }
    }
}

/// What one customer owes.
#[derive(Debug, PartialEq, Eq)]
pub struct Debt {
    pub customer_id: i32,
    pub customer_name: String,
    pub customer_phone: String,
    pub total_debt: i128,
}

/// The view of a [`Debt`].
pub struct DebtView {
    pub customer_id: i32,
    pub customer_name: Seq<char>,
    pub customer_phone: Seq<char>,
    pub total_debt: int,
}

impl View for Debt {
    type V = DebtView;

    open spec fn view(&self) -> DebtView {
        DebtView {
            customer_id: self.customer_id,
            customer_name: self.customer_name@,
            customer_phone: self.customer_phone@,
            total_debt: self.total_debt as int,
        }
    }
}

impl Clone for Debt {
    fn clone(&self) -> (r: Self)
        ensures
            r == *self,
    {
        Debt {
            customer_id: self.customer_id,
            customer_name: self.customer_name.clone(),
            customer_phone: self.customer_phone.clone(),
            total_debt: self.total_debt,
        }
    }
}

/// A customer's invoices, payments and the difference between them.
#[derive(Debug, PartialEq, Eq)]
pub struct CustomerDebt {
    pub id: i32,
    pub name: String,
    pub phone: String,
    pub total_debt: i128,
    pub total_payments: i128,
    pub total_invoices: i128,
}

/// The view of a [`CustomerDebt`].
pub struct CustomerDebtView {
    pub id: i32,
    pub name: Seq<char>,
    pub phone: Seq<char>,
    pub total_debt: int,
    pub total_payments: int,
    pub total_invoices: int,
}

impl View for CustomerDebt {
    type V = CustomerDebtView;

    open spec fn view(&self) -> CustomerDebtView {
        CustomerDebtView {
            id: self.id,
            name: self.name@,
            phone: self.phone@,
            total_debt: self.total_debt as int,
            total_payments: self.total_payments as int,
            total_invoices: self.total_invoices as int,
        }
    }
}

impl Clone for CustomerDebt {
    fn clone(&self) -> (r: Self)
        ensures
            r == *self,
    {
        CustomerDebt {
            id: self.id,
            name: self.name.clone(),
            phone: self.phone.clone(),
            total_debt: self.total_debt,
            total_payments: self.total_payments,
            total_invoices: self.total_invoices,
        }
    }
}

/// One line of a customer's ledger: an invoice or a payment.
#[derive(Debug, PartialEq, Eq)]
pub struct Transaction {
    pub record_id: i32,
    /// `invoice` or `payment`.
    pub transaction_type: String,
    /// The invoice number of an invoice; absent for a payment.
    pub reference: Option<String>,
    pub customer_id: i32,
    pub customer_name: String,
    pub customer_phone: String,
    pub date: String,
    pub amount: i64,
    pub created_at: String,
}

/// The view of a [`Transaction`].
pub struct TransactionView {
    pub record_id: i32,
    pub transaction_type: Seq<char>,
    pub reference: Option<Seq<char>>,
    pub customer_id: i32,
    pub customer_name: Seq<char>,
    pub customer_phone: Seq<char>,
    pub date: Seq<char>,
    pub amount: int,
    pub created_at: Seq<char>,
}

impl View for Transaction {
    type V = TransactionView;

    open spec fn view(&self) -> TransactionView {
        TransactionView {
            record_id: self.record_id,
            transaction_type: self.transaction_type@,
            reference: opt_text(self.reference),
            customer_id: self.customer_id,
            customer_name: self.customer_name@,
            customer_phone: self.customer_phone@,
            date: self.date@,
            amount: self.amount as int,
            created_at: self.created_at@,
        }
    }
}

impl Clone for Transaction {
    fn clone(&self) -> (r: Self)
        ensures
            r == *self,
    {
        Transaction {
            record_id: self.record_id,
            transaction_type: self.transaction_type.clone(),
            reference: copy_opt_text(&self.reference),
            customer_id: self.customer_id,
            customer_name: self.customer_name.clone(),
            customer_phone: self.customer_phone.clone(),
            date: self.date.clone(),
            amount: self.amount,
            created_at: self.created_at.clone(),
        }
    }
}

/// An invoice of one customer with its balance: the sum of the payments made
/// against it in place of the amount recorded as paid, and what that sum
/// leaves of the total. Both are sums and differences of stored amounts and
/// so are held in the wider type.
#[derive(Debug, PartialEq, Eq)]
pub struct InvoiceBalance {
    pub id: Option<i32>,
    pub invoice_number: String,
    pub customer_id: i32,
    /// Always absent: the listing of one customer's invoices does not look
    /// the customer up.
    pub customer_name: Option<String>,
    pub date: String,
    pub total: i64,
    pub status: Option<String>,
    /// The sum of the payments made against the invoice; 0 where there are
    /// none.
    pub paid_amount: Option<i128>,
    /// The total less the sum of the payments made against the invoice.
    pub remaining_amount: Option<i128>,
    pub created_at: Option<String>,
}

/// The view of an [`InvoiceBalance`].
pub struct InvoiceBalanceView {
    pub id: Option<i32>,
    pub invoice_number: Seq<char>,
    pub customer_id: i32,
    pub customer_name: Option<Seq<char>>,
    pub date: Seq<char>,
    pub total: int,
    pub status: Option<Seq<char>>,
    pub paid_amount: Option<int>,
    pub remaining_amount: Option<int>,
    pub created_at: Option<Seq<char>>,
}

impl View for InvoiceBalance {
    type V = InvoiceBalanceView;

    open spec fn view(&self) -> InvoiceBalanceView {
        InvoiceBalanceView {
            id: self.id,
            invoice_number: self.invoice_number@,
            customer_id: self.customer_id,
            customer_name: opt_text(self.customer_name),
            date: self.date@,
            total: self.total as int,
            status: opt_text(self.status),
            paid_amount: opt_wide(self.paid_amount),
            remaining_amount: opt_wide(self.remaining_amount),
            created_at: opt_text(self.created_at),
        }
    }
}

impl Clone for InvoiceBalance {
    fn clone(&self) -> (r: Self)
        ensures
            r == *self,
    {
        InvoiceBalance {
            id: self.id,
            invoice_number: self.invoice_number.clone(),
            customer_id: self.customer_id,
            customer_name: copy_opt_text(&self.customer_name),
            date: self.date.clone(),
            total: self.total,
            status: copy_opt_text(&self.status),
            paid_amount: self.paid_amount,
            remaining_amount: self.remaining_amount,
            created_at: copy_opt_text(&self.created_at),
        }
    }
}

impl Record for InvoiceBalance {
    fn duplicate(&self) -> (r: Self) {
        self.clone()
    }
}

impl Record for Customer {
    fn duplicate(&self) -> (r: Self) {
        self.clone()
    }
}

impl Record for Invoice {
    fn duplicate(&self) -> (r: Self) {
        self.clone()
    }
}

impl Record for InvoiceWithCustomer {
    fn duplicate(&self) -> (r: Self) {
        self.clone()
    }
}

impl Record for InvoiceItem {
    fn duplicate(&self) -> (r: Self) {
        self.clone()
    }
}

impl Record for Product {
    fn duplicate(&self) -> (r: Self) {
        self.clone()
    }
}

impl Record for Payment {
    fn duplicate(&self) -> (r: Self) {
        self.clone()
    }
}

impl Record for Debt {
    fn duplicate(&self) -> (r: Self) {
        self.clone()
    }
}

impl Record for CustomerDebt {
    fn duplicate(&self) -> (r: Self) {
        self.clone()
    }
}

impl Record for Transaction {
    fn duplicate(&self) -> (r: Self) {
        self.clone()
    }
}

/// A page of invoices and the sum of the totals of every invoice that the
/// search selected, on this page or not.
#[derive(Debug, PartialEq, Eq)]
pub struct InvoicesResponse {
    pub data: Vec<InvoiceWithCustomer>,
    pub total: i128,
}

/// The view of an [`InvoicesResponse`].
pub struct InvoicesResponseView {
    pub data: Seq<InvoiceWithCustomerView>,
    pub total: int,
}

impl View for InvoicesResponse {
    type V = InvoicesResponseView;

    open spec fn view(&self) -> InvoicesResponseView {
        InvoicesResponseView { data: views(self.data@), total: self.total as int }
    }
}

/// A page of payments and the sum of the amounts of every payment that the
/// search selected, on this page or not.
#[derive(Debug, PartialEq, Eq)]
pub struct PaymentsResult {
    pub data: Vec<Payment>,
    pub sum_amount: i128,
}

/// The view of a [`PaymentsResult`].
pub struct PaymentsResultView {
    pub data: Seq<PaymentView>,
    pub sum_amount: int,
}

impl View for PaymentsResult {
    type V = PaymentsResultView;

    open spec fn view(&self) -> PaymentsResultView {
        PaymentsResultView { data: views(self.data@), sum_amount: self.sum_amount as int }
    }
}

/// The totals over the whole store.
#[derive(Debug, PartialEq, Eq, Clone, Copy)]
pub struct ReportSummary {
    /// The sum of all invoice totals.
    pub total_invoices: i128,
    /// The sum of all payment amounts.
    pub total_payments: i128,
    /// Invoices less payments.
    pub total_debts: i128,
    /// The number of customers.
    pub customer_count: i32,
}

/// A customer's ledger over a span of dates, with the sums over that span.
#[derive(Debug, PartialEq, Eq)]
pub struct TransactionsResponse {
    pub data: Vec<Transaction>,
    pub total_invoices: i128,
    pub total_payments: i128,
    pub remaining_total: i128,
}

/// The view of a [`TransactionsResponse`].
pub struct TransactionsResponseView {
    pub data: Seq<TransactionView>,
    pub total_invoices: int,
    pub total_payments: int,
    pub remaining_total: int,
}

impl View for TransactionsResponse {
    type V = TransactionsResponseView;

    open spec fn view(&self) -> TransactionsResponseView {
        TransactionsResponseView {
            data: views(self.data@),
            total_invoices: self.total_invoices as int,
            total_payments: self.total_payments as int,
            remaining_total: self.remaining_total as int,
        }
    }
}

/// Why an operation on the store or on a report failed.
#[derive(Debug, PartialEq, Eq, Clone, Copy)]
pub enum ErrorKind {
    /// The data file or its directory cannot be opened or made.
    StorageUnavailable,
    /// The store refused a statement: a rule of the tables would be broken.
    QueryFailed,
    /// A report template is not where it should be.
    TemplateMissing,
    /// A report could not be compiled or exported.
    RenderFailed,
    /// A finished report could not be written out.
    WriteFailed,
}

impl ErrorKind {
    /// The words that say what went wrong.
    pub open spec fn text(self) -> Seq<char> {
        match self {
            ErrorKind::StorageUnavailable => "the data file or its directory cannot be opened"@,
            ErrorKind::QueryFailed => "the store refused the statement"@,
            ErrorKind::TemplateMissing => "the report template is missing"@,
            ErrorKind::RenderFailed => "the report could not be compiled or exported"@,
            ErrorKind::WriteFailed => "the report could not be written"@,
        }
    }

    /// The words that say what went wrong, for a caller that shows errors as
    /// text.
    pub fn message(&self) -> (r: String)
        ensures
            r@ == self.text(),
    {
        match self {
            ErrorKind::StorageUnavailable => {
                "the data file or its directory cannot be opened".to_owned()
            },
            ErrorKind::QueryFailed => "the store refused the statement".to_owned(),
            ErrorKind::TemplateMissing => "the report template is missing".to_owned(),
            ErrorKind::RenderFailed => "the report could not be compiled or exported".to_owned(),
            ErrorKind::WriteFailed => "the report could not be written".to_owned(),
        }
    }
}

} // verus!
