use vstd::prelude::*;
use vstd::string::StrSliceExecFns;

use crate::types::{TransactionCurrency, TransactionType};

verus! {

/// Shortest and longest accepted category name, in characters.
pub const NAME_MIN: usize = 3;

pub const NAME_MAX: usize = 50;

/// Shortest and longest accepted category description, in characters.
pub const DESCRIPTION_MIN: usize = 3;

pub const DESCRIPTION_MAX: usize = 500;

/// Whether `s` holds between `lo` and `hi` characters.
pub open spec fn length_within(s: Seq<char>, lo: usize, hi: usize) -> bool {
    lo <= s.len() <= hi
}

fn length_ok(s: &String, lo: usize, hi: usize) -> (r: bool)
    ensures
        r == length_within(s@, lo, hi),
{
    let n = s.as_str().unicode_len();
    lo <= n && n <= hi
}

/// A new category as a user submits it.
pub struct CreateCategory {
    pub name: String,
    pub description: String,
}

impl CreateCategory {
    /// The name and description both have an accepted length.
    pub open spec fn valid(&self) -> bool {
        length_within(self.name@, NAME_MIN, NAME_MAX) && length_within(
            self.description@,
            DESCRIPTION_MIN,
            DESCRIPTION_MAX,
        )
    }

    /// Checks the length of the name and the description.
    pub fn validate(&self) -> (r: bool)
        ensures
            r == self.valid(),
    {
        length_ok(&self.name, NAME_MIN, NAME_MAX) && length_ok(
            &self.description,
            DESCRIPTION_MIN,
            DESCRIPTION_MAX,
        )
    }
}

/// A partial edit of a category: absent fields stay as they are.
pub struct EditCategory {
    pub name: Option<String>,
    pub description: Option<String>,
}

impl EditCategory {
    /// Whether the edit names at least one field.
    pub fn is_some(&self) -> (r: bool)
        ensures
            r == (self.name is Some || self.description is Some),
    {
        self.name.is_some() || self.description.is_some()
    }

    /// Every field that is present has an accepted length.
    pub open spec fn valid(&self) -> bool {
        (self.name is Some ==> length_within(self.name->0@, NAME_MIN, NAME_MAX)) && (
        self.description is Some ==> length_within(
            self.description->0@,
            DESCRIPTION_MIN,
            DESCRIPTION_MAX,
        ))
    }

    /// Checks the length of every field that is present.
    pub fn validate(&self) -> (r: bool)
        ensures
            r == self.valid(),
    {
        let name_ok = match &self.name {
            Some(n) => length_ok(n, NAME_MIN, NAME_MAX),
            None => true,
        };
        let description_ok = match &self.description {
            Some(d) => length_ok(d, DESCRIPTION_MIN, DESCRIPTION_MAX),
            None => true,
        };
        name_ok && description_ok
    }
}

/// A new transaction as a user submits it. An absent category or currency is
/// filled in from the user's defaults.
pub struct Transaction {
    /// Amount in minor units of the currency.
    pub amount: i64,
    pub category_id: Option<i32>,
    pub description: String,
    /// Seconds since the Unix epoch.
    pub transaction_date: i64,
    pub transaction_type: TransactionType,
    pub currency: Option<TransactionCurrency>,
}

/// A partial update of a transaction: absent fields stay as they are.
pub struct ObjectTransaction {
    pub description: Option<String>,
    /// Amount in minor units of the currency.
    pub amount: Option<i64>,
    pub currency: Option<TransactionCurrency>,
}

/// A new budget as a user submits it.
#[derive(Clone, Copy)]
pub struct CreateBudgetPost {
    /// Amount in minor units.
    pub amount: i64,
    /// Seconds since the Unix epoch.
    pub start_date: i64,
    /// Seconds since the Unix epoch.
    pub end_date: i64,
    pub recurring: bool,
}

/// New dates of a budget.
#[derive(Clone, Copy)]
pub struct ChangeBudgetDateBody {
    /// Seconds since the Unix epoch.
    pub start_date: i64,
    /// Seconds since the Unix epoch.
    pub end_date: i64,
}

/// Selects the transactions of one category, or of the default category.
pub struct GetAllTransactionsByCategoriesRequest {
    pub category_id: Option<i32>,
}

/// Names a category that a budget is created for.
pub struct CreateBudgetPath {
    pub category_id: i32,
}

/// Names a budget whose amount or recurrence changes.
pub struct ChangeBudgetPath {
    pub budget_id: i32,
}

/// Names a budget whose dates change.
pub struct ChangeBudgetDatePath {
    pub budget_id: i32,
}

/// Names a budget to delete.
pub struct DeleteBudgetPath {
    pub budget_id: i32,
}

/// Names the category that becomes the default.
pub struct PathDefaultCategory {
    pub category_id: i32,
}

/// Names a category to delete.
pub struct DeleteCategory {
    pub category_id: i32,
}

/// Names a category to read or edit.
pub struct PathCategory {
    pub category_id: i32,
}

/// Names a transaction to read.
pub struct TransactionId {
    pub transaction_id: i32,
}

/// Names a transaction and the category it moves to.
pub struct PathSwapTransactionCategory {
    pub transaction_id: i32,
    pub category_id: i32,
}

/// Names a transaction to update.
pub struct PathUpdate {
    pub transaction_id: i32,
}

/// A user's default currency.
pub struct CurrencyReturn {
    pub currency: TransactionCurrency,
}

/// Body of a failed request.
pub struct ErrorResponse {
    pub error: String,
}

/// Body of a request that succeeded without other data.
pub struct SuccessResponse {
    pub message: String,
}

} // verus!
