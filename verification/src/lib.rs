//! Bookkeeping for a small business: customers, invoices with their items,
//! and payments, kept in a store in memory, with the listings, debts, ledgers
//! and report texts that are derived from them.
//!
//! The [`Store`] holds four tables and assigns identifiers. Every function
//! that reads it says in its contract which rows it returns and in which
//! order; every function that changes it says what the store holds
//! afterwards. Amounts are whole numbers of the smallest currency unit, so
//! that sums are exact. The contracts are stated over the views of the
//! records and of the store ([`store::StoreView`]); the properties that relate
//! several functions are proved as `lemma_` functions beside them.

pub mod clock;
pub mod text;
pub mod order;
pub mod listing;
pub mod models;
pub mod store;
pub mod customers;
pub mod invoices;
pub mod payments;
pub mod debts;
pub mod reports;

pub use customers::{create_customer, create_customer_at, delete_customer, get_all_customers,
    get_customer_by_id, update_customer};
pub use debts::{get_all_debts, get_customer_debt, get_report_summary, get_transactions};
pub use invoices::{create_invoice, create_invoice_at, create_invoice_item, delete_invoice,
    delete_invoice_items, get_all_invoices, get_invoice_by_id, get_invoice_items,
    get_invoices_by_customer_id, get_products_grouped, update_invoice};
pub use models::{Customer, CustomerDebt, Debt, ErrorKind, Invoice, InvoiceBalance, InvoiceItem,
    InvoiceWithCustomer, InvoicesResponse, Payment, PaymentsResult, Product, ReportSummary,
    Transaction, TransactionsResponse};
pub use payments::{create_payment, create_payment_at, delete_payment, get_all_payments,
    update_payment};
pub use reports::{format_amount, get_invoices, invoices_report, transactions_report};
pub use store::Store;
