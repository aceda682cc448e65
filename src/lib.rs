//! Ledger and attachment consistency core of a personal-finance backend.
//!
//! Users record transactions (deposits and withdrawals) against categories,
//! attach optional receipt images kept in an object store, and group
//! categories under budgets. The library keeps the relational ledger
//! consistent with cross-row invariants (exactly one default category per
//! user, receipts owned one-to-one by transactions, budgets linked one-to-one
//! with categories, derived budget durations) and decides which compensating
//! object-store deletes each operation owes.
mod attachments;
mod ledger;
mod requests;
mod settings;
mod types;

pub use attachments::receipt_key;
pub use ledger::{
    Budget, Category, CategoryRecord, Ledger, LedgerError, LedgerOutcome, LedgerView, Receipt,
    TransactionOutcomeWithReceipt, TransactionRecord, UploadOutcome, TIMESTAMP_LIMIT,
};
pub use requests::{
    ChangeBudgetDateBody, ChangeBudgetDatePath, ChangeBudgetPath, CreateBudgetPath,
    CreateBudgetPost, CreateCategory, CurrencyReturn, DeleteBudgetPath, DeleteCategory,
    EditCategory, ErrorResponse, GetAllTransactionsByCategoriesRequest, ObjectTransaction,
    PathCategory, PathDefaultCategory, PathSwapTransactionCategory, PathUpdate, SuccessResponse,
    Transaction, TransactionId,
};
pub use settings::{
    ApplicationSettings, AxiomSettings, EmailSettings, Environment, RedisSettings, Secret,
    Settings,
};
pub use types::{TransactionCurrency, TransactionType};
