use vstd::prelude::*;
use vstd::pervasive::VecAdditionalExecFns;
use vstd::seq_lib::{to_multiset_build, to_multiset_insert};

use crate::requests::{
    ChangeBudgetDateBody, ChangeBudgetDatePath, ChangeBudgetPath, CreateBudgetPath,
    CreateBudgetPost, CreateCategory, CurrencyReturn, DeleteBudgetPath, DeleteCategory, EditCategory, GetAllTransactionsByCategoriesRequest,
    ObjectTransaction, PathCategory, PathDefaultCategory, PathSwapTransactionCategory, PathUpdate,
    Transaction, TransactionId,
};
use crate::types::{TransactionCurrency, TransactionType};

verus! {

/// Why an operation on the ledger did not take effect.
#[derive(PartialEq, Eq, Structural, Clone, Copy, Debug)]
pub enum LedgerError {
    /// The entity is absent, soft-deleted, or owned by another user.
    NotFound,
    /// The input is refused (no field to edit, a length out of range, the
    /// default category named for deletion, a category that already has a budget).
    ValidationError,
    /// The user has no default category to fill in.
    NoDefaultCategory,
    /// The user has no default currency to fill in.
    NoDefaultCurrency,
    /// The object store did not take the receipt.
    StorageFailure,
    /// The relational store cannot take the write (its identifiers are used up).
    InfrastructureError,
}

/// Largest distance from the epoch, in seconds, that a date may have. It
/// covers every instant a calendar library represents, and keeps the
/// difference of two dates within `i64`.
pub const TIMESTAMP_LIMIT: i64 = 4_000_000_000_000_000_000;

/// Whether `t` lies within the supported range of dates.
pub open spec fn valid_timestamp(t: i64) -> bool {
    -TIMESTAMP_LIMIT <= t <= TIMESTAMP_LIMIT
}

/// A spending limit set on one category over a period.
#[derive(PartialEq, Eq, Structural, Clone, Copy, Debug)]
pub struct Budget {
    pub budget_id: i32,
    pub category_id: i32,
    pub user_id: u128,
    /// Amount in minor units.
    pub amount: i64,
    pub start_date: i64,
    pub end_date: i64,
    pub recurring: bool,
    /// Length of the period in seconds: always `end_date - start_date`.
    pub duration_unix: i64,
}

/// The stored receipt of a transaction: where its image lives.
pub struct Receipt {
    pub id: i32,
    pub transaction_id: i32,
    pub receipt_url: String,
    pub user_id: u128,
}

/// A stored transaction, together with the receipt it owns.
pub struct TransactionRecord {
    pub transaction_id: i32,
    pub user_id: u128,
    /// Amount in minor units of the currency.
    pub amount: i64,
    pub category_id: i32,
    pub description: String,
    /// Seconds since the Unix epoch.
    pub date: i64,
    pub transaction_type: TransactionType,
    pub currency: TransactionCurrency,
    pub receipt: Option<Receipt>,
    /// Set by a soft delete and never cleared.
    pub deleted: bool,
}

/// A stored category, together with the budget linked to it.
pub struct CategoryRecord {
    pub category_id: i32,
    pub category_name: String,
    pub description: String,
    pub user_id: u128,
    pub is_default: bool,
    pub budget: Option<Budget>,
}

/// A category as it is shown, with the fields of its budget if it has one.
pub struct Category {
    pub category_id: i32,
    pub category_name: String,
    pub description: String,
    pub user_id: u128,
    pub is_default: bool,
    pub budget_id: Option<i32>,
    pub start_date: Option<i64>,
    pub end_date: Option<i64>,
    pub recurring: Option<bool>,
    pub amount: Option<i64>,
}

/// A transaction as it is shown, joined with the address of its receipt.
pub struct TransactionOutcomeWithReceipt {
    pub transaction_id: i32,
    pub amount: i64,
    pub category_id: i32,
    pub description: String,
    pub date: i64,
    pub transaction_type: TransactionType,
    pub receipt_id: Option<i32>,
    pub receipt_url: Option<String>,
    pub user_id: u128,
    pub currency: TransactionCurrency,
}

/// How a category is shown.
pub open spec fn category_of(c: CategoryRecord) -> Category {
    Category {
        category_id: c.category_id,
        category_name: c.category_name,
        description: c.description,
        user_id: c.user_id,
        is_default: c.is_default,
        budget_id: match c.budget {
            Some(b) => Some(b.budget_id),
            None => None,
        },
        start_date: match c.budget {
            Some(b) => Some(b.start_date),
            None => None,
        },
        end_date: match c.budget {
            Some(b) => Some(b.end_date),
            None => None,
        },
        recurring: match c.budget {
            Some(b) => Some(b.recurring),
            None => None,
        },
        amount: match c.budget {
            Some(b) => Some(b.amount),
            None => None,
        },
    }
}

/// How a transaction is shown.
pub open spec fn outcome_of(t: TransactionRecord) -> TransactionOutcomeWithReceipt {
    TransactionOutcomeWithReceipt {
        transaction_id: t.transaction_id,
        amount: t.amount,
        category_id: t.category_id,
        description: t.description,
        date: t.date,
        transaction_type: t.transaction_type,
        receipt_id: match t.receipt {
            Some(r) => Some(r.id),
            None => None,
        },
        receipt_url: match t.receipt {
            Some(r) => Some(r.receipt_url),
            None => None,
        },
        user_id: t.user_id,
        currency: t.currency,
    }
}

/// The ledger's tables, as values.
pub struct LedgerView {
    pub transactions: Seq<TransactionRecord>,
    pub categories: Seq<CategoryRecord>,
    /// Each user's default currency, one entry per user at most.
    pub currencies: Seq<(u128, TransactionCurrency)>,
    pub next_transaction_id: i32,
    pub next_receipt_id: i32,
    pub next_category_id: i32,
    pub next_budget_id: i32,
}

/// The relational ledger: transactions with their receipts, categories with
/// their budgets, and each user's default currency.
pub struct Ledger {
    transactions: Vec<TransactionRecord>,
    categories: Vec<CategoryRecord>,
    currencies: Vec<(u128, TransactionCurrency)>,
    next_transaction_id: i32,
    next_receipt_id: i32,
    next_category_id: i32,
    next_budget_id: i32,
}

impl View for Ledger {
    type V = LedgerView;

    closed spec fn view(&self) -> LedgerView {
        LedgerView {
            transactions: self.transactions@,
            categories: self.categories@,
            currencies: self.currencies@,
            next_transaction_id: self.next_transaction_id,
            next_receipt_id: self.next_receipt_id,
            next_category_id: self.next_category_id,
            next_budget_id: self.next_budget_id,
        }
    }
}

/// No two of a user's categories are default.
pub open spec fn default_unique(cats: Seq<CategoryRecord>) -> bool {
    forall|i: int, j: int|
        0 <= i < cats.len() && 0 <= j < cats.len() && #[trigger] cats[i].is_default
            && #[trigger] cats[j].is_default && cats[i].user_id == cats[j].user_id ==> i == j
}

/// Whether one of `cats` is a default category of `u`.
pub open spec fn default_in(cats: Seq<CategoryRecord>, u: u128) -> bool {
    exists|j: int| 0 <= j < cats.len() && #[trigger] cats[j].user_id == u && cats[j].is_default
}

/// Each user who has a category has a default one.
pub open spec fn default_present(cats: Seq<CategoryRecord>) -> bool {
    forall|i: int| 0 <= i < cats.len() ==> #[trigger] default_in(cats, cats[i].user_id)
}

/// Categories have distinct identifiers below the next one, and each linked
/// budget belongs to its category and has the duration of its dates.
pub open spec fn categories_wf(cats: Seq<CategoryRecord>, next_category: i32, next_budget: i32) -> bool {
    &&& forall|i: int| 0 <= i < cats.len() ==> 1 <= #[trigger] cats[i].category_id < next_category
    &&& forall|i: int, j: int|
        0 <= i < cats.len() && 0 <= j < cats.len() && i != j ==> #[trigger] cats[i].category_id
            != #[trigger] cats[j].category_id
    &&& forall|i: int|
        0 <= i < cats.len() && (#[trigger] cats[i].budget) is Some ==> budget_wf(
            cats[i].budget->0,
            cats[i],
            next_budget,
        )
    &&& forall|i: int, j: int|
        0 <= i < cats.len() && 0 <= j < cats.len() && i != j && (#[trigger] cats[i].budget) is Some
            && (#[trigger] cats[j].budget) is Some ==> cats[i].budget->0.budget_id
            != cats[j].budget->0.budget_id
    &&& default_unique(cats)
    &&& default_present(cats)
}

/// A budget linked to category `c`.
pub open spec fn budget_wf(b: Budget, c: CategoryRecord, next_budget: i32) -> bool {
    &&& 1 <= b.budget_id < next_budget
    &&& b.category_id == c.category_id
    &&& b.user_id == c.user_id
    &&& valid_timestamp(b.start_date)
    &&& valid_timestamp(b.end_date)
    &&& b.duration_unix == b.end_date - b.start_date
}

/// Transactions have distinct identifiers below the next one; each receipt
/// belongs to its live transaction and has an identifier of its own.
pub open spec fn transactions_wf(txs: Seq<TransactionRecord>, next_tx: i32, next_receipt: i32) -> bool {
    &&& forall|i: int| 0 <= i < txs.len() ==> 1 <= #[trigger] txs[i].transaction_id < next_tx
    &&& forall|i: int, j: int|
        0 <= i < txs.len() && 0 <= j < txs.len() && i != j ==> #[trigger] txs[i].transaction_id
            != #[trigger] txs[j].transaction_id
    &&& forall|i: int|
        0 <= i < txs.len() && (#[trigger] txs[i].receipt) is Some ==> receipt_wf(
            txs[i].receipt->0,
            txs[i],
            next_receipt,
        )
    &&& forall|i: int, j: int|
        0 <= i < txs.len() && 0 <= j < txs.len() && i != j && (#[trigger] txs[i].receipt) is Some
            && (#[trigger] txs[j].receipt) is Some ==> txs[i].receipt->0.id != txs[j].receipt->0.id
}

/// A receipt owned by transaction `t`.
pub open spec fn receipt_wf(r: Receipt, t: TransactionRecord, next_receipt: i32) -> bool {
    &&& 1 <= r.id < next_receipt
    &&& r.transaction_id == t.transaction_id
    &&& r.user_id == t.user_id
    &&& !t.deleted
}

/// At most one default currency per user.
pub open spec fn currencies_wf(cs: Seq<(u128, TransactionCurrency)>) -> bool {
    forall|i: int, j: int|
        0 <= i < cs.len() && 0 <= j < cs.len() && i != j ==> #[trigger] cs[i].0 != #[trigger] cs[j].0
}

impl LedgerView {
    /// The invariant every operation keeps.
    pub open spec fn wf(self) -> bool {
        &&& 1 <= self.next_transaction_id
        &&& 1 <= self.next_receipt_id
        &&& 1 <= self.next_category_id
        &&& 1 <= self.next_budget_id
        &&& transactions_wf(self.transactions, self.next_transaction_id, self.next_receipt_id)
        &&& categories_wf(self.categories, self.next_category_id, self.next_budget_id)
        &&& currencies_wf(self.currencies)
    }

    /// Whether `u` has at least one category.
    pub open spec fn has_category(self, u: u128) -> bool {
        exists|i: int| 0 <= i < self.categories.len() && #[trigger] self.categories[i].user_id == u
    }

    /// Whether category `id` exists and belongs to `u`.
    pub open spec fn owns_category(self, u: u128, id: i32) -> bool {
        exists|i: int|
            0 <= i < self.categories.len() && #[trigger] self.categories[i].category_id == id
                && self.categories[i].user_id == u
    }

    /// Position of category `id` of `u`.
    pub open spec fn category_position(self, u: u128, id: i32) -> int {
        choose|i: int|
            0 <= i < self.categories.len() && #[trigger] self.categories[i].category_id == id
                && self.categories[i].user_id == u
    }

    /// Whether `u` has a default category.
    pub open spec fn has_default(self, u: u128) -> bool {
        default_in(self.categories, u)
    }

    /// The row a new category of `u` gets.
    pub open spec fn new_category_row(self, u: u128, data: CreateCategory) -> CategoryRecord {
        CategoryRecord {
            category_id: self.next_category_id,
            category_name: data.name,
            description: data.description,
            user_id: u,
            is_default: !self.has_category(u),
            budget: None,
        }
    }

    /// The ledger with category `row` added.
    pub open spec fn with_new_category(self, row: CategoryRecord) -> LedgerView {
        LedgerView {
            categories: self.categories.push(row),
            next_category_id: (self.next_category_id + 1) as i32,
            ..self
        }
    }

    /// The ledger with its category rows replaced by `cats`.
    pub open spec fn with_categories(self, cats: Seq<CategoryRecord>) -> LedgerView {
        LedgerView { categories: cats, ..self }
    }

    /// Position of the default category of `u`.
    pub open spec fn default_position(self, u: u128) -> int {
        choose|i: int|
            0 <= i < self.categories.len() && #[trigger] self.categories[i].user_id == u
                && self.categories[i].is_default
    }
}

/// The categories of `u` among `cats`, shown, in stored order.
pub open spec fn categories_of(cats: Seq<CategoryRecord>, u: u128) -> Seq<Category>
    decreases cats.len(),
{
    if cats.len() == 0 {
        Seq::empty()
    } else {
        let rest = categories_of(cats.drop_last(), u);
        if cats.last().user_id == u {
            rest.push(category_of(cats.last()))
        } else {
            rest
        }
    }
}

/// The category rows after `id` of `u` becomes the default: every other
/// category of `u` stops being one.
pub open spec fn with_default(cats: Seq<CategoryRecord>, u: u128, id: i32) -> Seq<CategoryRecord> {
    Seq::new(
        cats.len(),
        |i: int|
            if cats[i].user_id == u {
                CategoryRecord { is_default: cats[i].category_id == id, ..cats[i] }
            } else {
                cats[i]
            },
    )
}

fn copy_budget(b: &Option<Budget>) -> (r: Option<Budget>)
    ensures
        r == *b,
{
    match b {
        Some(x) => Some(*x),
        None => None,
    }
}

fn flag_default(c: &CategoryRecord, d: bool) -> (r: CategoryRecord)
    ensures
        r == (CategoryRecord { is_default: d, ..*c }),
{
    CategoryRecord {
        category_id: c.category_id,
        category_name: c.category_name.clone(),
        description: c.description.clone(),
        user_id: c.user_id,
        is_default: d,
        budget: copy_budget(&c.budget),
    }
}

fn show_category(c: &CategoryRecord) -> (r: Category)
    ensures
        r == category_of(*c),
{
    let (budget_id, start_date, end_date, recurring, amount) = match &c.budget {
        Some(b) => (Some(b.budget_id), Some(b.start_date), Some(b.end_date), Some(b.recurring), Some(b.amount)),
        None => (None, None, None, None, None),
    };
    Category {
        category_id: c.category_id,
        category_name: c.category_name.clone(),
        description: c.description.clone(),
        user_id: c.user_id,
        is_default: c.is_default,
        budget_id,
        start_date,
        end_date,
        recurring,
        amount,
    }
}

impl Ledger {
    /// An empty ledger.
    pub fn new() -> (r: Ledger)
        ensures
            r@.wf(),
            r@.transactions.len() == 0,
            r@.categories.len() == 0,
            r@.currencies.len() == 0,
            r@.next_transaction_id == 1,
            r@.next_receipt_id == 1,
            r@.next_category_id == 1,
            r@.next_budget_id == 1,
    {
        Ledger {
            transactions: Vec::new(),
            categories: Vec::new(),
            currencies: Vec::new(),
            next_transaction_id: 1,
            next_receipt_id: 1,
            next_category_id: 1,
            next_budget_id: 1,
        }
    }

    fn category_index(&self, user_id: u128, category_id: i32) -> (r: Option<usize>)
        ensures
            match r {
                Some(i) => i < self@.categories.len() && self@.categories[i as int].category_id
                    == category_id && self@.categories[i as int].user_id == user_id,
                None => !self@.owns_category(user_id, category_id),
            },
    {
        let mut i: usize = 0;
        while i < self.categories.len()
            invariant
                i <= self.categories@.len(),
                forall|k: int|
                    0 <= k < i ==> !(#[trigger] self.categories@[k].category_id == category_id
                        && self.categories@[k].user_id == user_id),
            decreases self.categories@.len() - i,
        {
            if self.categories[i].category_id == category_id && self.categories[i].user_id
                == user_id {
                return Some(i);
            }
            i += 1;
        }
        None
    }

    fn default_index(&self, user_id: u128) -> (r: Option<usize>)
        ensures
            match r {
                Some(i) => i < self@.categories.len() && self@.categories[i as int].user_id
                    == user_id && self@.categories[i as int].is_default,
                None => !self@.has_default(user_id),
            },
    {
        let mut i: usize = 0;
        while i < self.categories.len()
            invariant
                i <= self.categories@.len(),
                forall|k: int|
                    0 <= k < i ==> !(#[trigger] self.categories@[k].user_id == user_id
                        && self.categories@[k].is_default),
            decreases self.categories@.len() - i,
        {
            if self.categories[i].user_id == user_id && self.categories[i].is_default {
                return Some(i);
            }
            i += 1;
        }
        None
    }

    fn any_category(&self, user_id: u128) -> (r: bool)
        ensures
            r == self@.has_category(user_id),
    {
        let mut i: usize = 0;
        while i < self.categories.len()
            invariant
                i <= self.categories@.len(),
                forall|k: int| 0 <= k < i ==> #[trigger] self.categories@[k].user_id != user_id,
            decreases self.categories@.len() - i,
        {
            if self.categories[i].user_id == user_id {
                return true;
            }
            i += 1;
        }
        false
    }

    /// Ownership check: whether category `category_id` exists and belongs to
    /// `user_id`. Absence and foreign ownership give the same answer.
    pub fn check_category_exists(&self, category_id: i32, user_id: u128) -> (r: bool)
        ensures
            r == self@.owns_category(user_id, category_id),
    {
        self.category_index(user_id, category_id).is_some()
    }

    /// Creates a category for `user_id`. A user's first category becomes
    /// the default one.
    pub fn create_category(&mut self, user_id: u128, data: &CreateCategory) -> (r: Result<
        Category,
        LedgerError,
    >)
        requires
            old(self)@.wf(),
        ensures
            final(self)@.wf(),
            !data.valid() ==> r == Err::<Category, LedgerError>(LedgerError::ValidationError)
                && final(self)@ == old(self)@,
            data.valid() && old(self)@.next_category_id == i32::MAX ==> r == Err::<
                Category,
                LedgerError,
            >(LedgerError::InfrastructureError) && final(self)@ == old(self)@,
            data.valid() && old(self)@.next_category_id < i32::MAX ==> r == Ok::<
                Category,
                LedgerError,
            >(category_of(old(self)@.new_category_row(user_id, *data))) && final(self)@ == old(
                self,
            )@.with_new_category(old(self)@.new_category_row(user_id, *data)),
    {
        if !data.validate() {
            return Err(LedgerError::ValidationError);
        }
        if self.next_category_id == i32::MAX {
            return Err(LedgerError::InfrastructureError);
        }
        let first = !self.any_category(user_id);
        let row = CategoryRecord {
            category_id: self.next_category_id,
            category_name: data.name.clone(),
            description: data.description.clone(),
            user_id,
            is_default: first,
            budget: None,
        };
        let shown = show_category(&row);
        let ghost old_cats = self.categories@;
        self.categories.push(row);
        self.next_category_id = self.next_category_id + 1;
        proof {
            let cats = self.categories@;
            assert forall|i: int| 0 <= i < old_cats.len() implies #[trigger] cats[i] == old_cats[i] by {}
            assert(cats[old_cats.len() as int] == row);
            assert forall|i: int| 0 <= i < cats.len() implies #[trigger] default_in(cats, cats[i].user_id) by {
                if i < old_cats.len() {
                    assert(default_in(old_cats, old_cats[i].user_id));
                    let j = choose|j: int|
                        0 <= j < old_cats.len() && #[trigger] old_cats[j].user_id
                            == old_cats[i].user_id && old_cats[j].is_default;
                    assert(cats[j] == old_cats[j]);
                    assert(cats[i] == old_cats[i]);
                } else if first {
                    assert(cats[i].is_default);
                } else {
                    let k = choose|k: int|
                        0 <= k < old_cats.len() && #[trigger] old_cats[k].user_id == user_id;
                    assert(default_in(old_cats, old_cats[k].user_id));
                    let j = choose|j: int|
                        0 <= j < old_cats.len() && #[trigger] old_cats[j].user_id
                            == old_cats[k].user_id && old_cats[j].is_default;
                    assert(cats[j] == old_cats[j]);
                }
            }
            assert(default_unique(cats)) by {
                assert forall|i: int, j: int|
                    0 <= i < cats.len() && 0 <= j < cats.len() && #[trigger] cats[i].is_default
                        && #[trigger] cats[j].is_default && cats[i].user_id
                        == cats[j].user_id implies i == j by {
                    if i == old_cats.len() && j < old_cats.len() {
                        assert(old_cats[j].user_id == user_id);
                    }
                    if j == old_cats.len() && i < old_cats.len() {
                        assert(old_cats[i].user_id == user_id);
                    }
                }
            }
        }
        Ok(shown)
    }

    /// Makes `category_id` the only default category of `user_id`.
    pub fn change_category_default(&mut self, user_id: u128, path: &PathDefaultCategory) -> (r:
        Result<(), LedgerError>)
        requires
            old(self)@.wf(),
        ensures
            final(self)@.wf(),
            !old(self)@.owns_category(user_id, path.category_id) ==> r == Err::<(), LedgerError>(
                LedgerError::NotFound,
            ) && final(self)@ == old(self)@,
            old(self)@.owns_category(user_id, path.category_id) ==> r == Ok::<(), LedgerError>(())
                && final(self)@ == old(self)@.with_categories(
                with_default(old(self)@.categories, user_id, path.category_id),
            ),
    {
        let target = match self.category_index(user_id, path.category_id) {
            Some(t) => t,
            None => return Err(LedgerError::NotFound),
        };
        let ghost old_cats = self.categories@;
        let ghost goal = with_default(old_cats, user_id, path.category_id);
        let mut i: usize = 0;
        while i < self.categories.len()
            invariant
                i <= self.categories@.len(),
                self.categories@.len() == old_cats.len(),
                goal == with_default(old_cats, user_id, path.category_id),
                goal.len() == old_cats.len(),
                old_cats == old(self)@.categories,
                self@ == old(self)@.with_categories(self.categories@),
                forall|k: int| 0 <= k < i ==> #[trigger] self.categories@[k] == goal[k],
                forall|k: int|
                    i <= k < self.categories@.len() ==> #[trigger] self.categories@[k]
                        == old_cats[k],
            decreases self.categories@.len() - i,
        {
            if self.categories[i].user_id == user_id {
                let d = self.categories[i].category_id == path.category_id;
                let row = flag_default(&self.categories[i], d);
                self.categories.set(i, row);
            }
            assert(self.categories@[i as int] == goal[i as int]);
            i += 1;
        }
        proof {
            assert(self.categories@ =~= goal);
            lemma_with_default_wf(old(self)@, user_id, path.category_id, target as int);
        }
        Ok(())
    }
    /// Deletes category `category_id` of `user_id`, with its budget. The
    /// default category cannot be deleted.
    pub fn delete_category(&mut self, user_id: u128, data: &DeleteCategory) -> (r: Result<
        (),
        LedgerError,
    >)
        requires
            old(self)@.wf(),
        ensures
            final(self)@.wf(),
            !old(self)@.owns_category(user_id, data.category_id) ==> r == Err::<(), LedgerError>(
                LedgerError::NotFound,
            ) && final(self)@ == old(self)@,
            old(self)@.owns_category(user_id, data.category_id) && old(self)@.categories[old(
                self,
            )@.category_position(user_id, data.category_id)].is_default ==> r == Err::<
                (),
                LedgerError,
            >(LedgerError::ValidationError) && final(self)@ == old(self)@,
            old(self)@.owns_category(user_id, data.category_id) && !old(self)@.categories[old(
                self,
            )@.category_position(user_id, data.category_id)].is_default ==> r == Ok::<
                (),
                LedgerError,
            >(()) && final(self)@ == old(self)@.with_categories(
                old(self)@.categories.remove(old(self)@.category_position(user_id, data.category_id)),
            ),
    {
        let k = match self.category_index(user_id, data.category_id) {
            Some(k) => k,
            None => return Err(LedgerError::NotFound),
        };
        proof {
            lemma_category_position(self@, user_id, data.category_id, k as int);
        }
        if self.categories[k].is_default {
            return Err(LedgerError::ValidationError);
        }
        proof {
            lemma_remove_category_wf(self@, k as int);
        }
        self.categories.remove(k);
        Ok(())
    }

    /// Renames or redescribes category `category_id` of `user_id`. Absent
    /// fields keep their value; an edit that names no field, or changes
    /// nothing, is refused.
    pub fn edit_category(&mut self, user_id: u128, path: &PathCategory, edit: &EditCategory) -> (r:
        Result<Category, LedgerError>)
        requires
            old(self)@.wf(),
        ensures
            final(self)@.wf(),
            !(edit.name is Some || edit.description is Some) || !edit.valid() ==> r == Err::<
                Category,
                LedgerError,
            >(LedgerError::ValidationError) && final(self)@ == old(self)@,
            (edit.name is Some || edit.description is Some) && edit.valid() && !old(
                self,
            )@.owns_category(user_id, path.category_id) ==> r == Err::<Category, LedgerError>(
                LedgerError::NotFound,
            ) && final(self)@ == old(self)@,
            (edit.name is Some || edit.description is Some) && edit.valid() && old(
                self,
            )@.owns_category(user_id, path.category_id) ==> {
                let c = old(self)@.categories[old(self)@.category_position(user_id, path.category_id)];
                &&& unchanged_by(c, *edit) ==> r == Err::<Category, LedgerError>(
                    LedgerError::ValidationError,
                ) && final(self)@ == old(self)@
                &&& !unchanged_by(c, *edit) ==> r == Ok::<Category, LedgerError>(
                    category_of(edited(c, *edit)),
                ) && final(self)@ == old(self)@.with_categories(
                    old(self)@.categories.update(
                        old(self)@.category_position(user_id, path.category_id),
                        edited(c, *edit),
                    ),
                )
            },
    {
        if !edit.is_some() || !edit.validate() {
            return Err(LedgerError::ValidationError);
        }
        let k = match self.category_index(user_id, path.category_id) {
            Some(k) => k,
            None => return Err(LedgerError::NotFound),
        };
        proof {
            lemma_category_position(self@, user_id, path.category_id, k as int);
        }
        let c = &self.categories[k];
        let name = match &edit.name {
            Some(n) => n.clone(),
            None => c.category_name.clone(),
        };
        let description = match &edit.description {
            Some(d) => d.clone(),
            None => c.description.clone(),
        };
        if name == c.category_name && description == c.description {
            return Err(LedgerError::ValidationError);
        }
        let row = CategoryRecord {
            category_id: c.category_id,
            category_name: name,
            description,
            user_id: c.user_id,
            is_default: c.is_default,
            budget: copy_budget(&c.budget),
        };
        let shown = show_category(&row);
        proof {
            lemma_update_category_wf(self@, k as int, row);
        }
        self.categories.set(k, row);
        Ok(shown)
    }

    /// Category `category_id` of `user_id`, with its budget's fields.
    pub fn get_category_by_id(&self, user_id: u128, path: &PathCategory) -> (r: Result<
        Category,
        LedgerError,
    >)
        requires
            self@.wf(),
        ensures
            !self@.owns_category(user_id, path.category_id) ==> r == Err::<Category, LedgerError>(
                LedgerError::NotFound,
            ),
            self@.owns_category(user_id, path.category_id) ==> r == Ok::<Category, LedgerError>(
                category_of(self@.categories[self@.category_position(user_id, path.category_id)]),
            ),
    {
        let k = match self.category_index(user_id, path.category_id) {
            Some(k) => k,
            None => return Err(LedgerError::NotFound),
        };
        proof {
            lemma_category_position(self@, user_id, path.category_id, k as int);
        }
        Ok(show_category(&self.categories[k]))
    }

    /// Every category of `user_id`, in the order they were created.
    pub fn get_all_category_by_user_id(&self, user_id: u128) -> (r: Vec<Category>)
        ensures
            r@ == categories_of(self@.categories, user_id),
    {
        let mut out: Vec<Category> = Vec::new();
        let mut i: usize = 0;
        while i < self.categories.len()
            invariant
                i <= self.categories@.len(),
                out@ == categories_of(self.categories@.subrange(0, i as int), user_id),
            decreases self.categories@.len() - i,
        {
            proof {
                assert(self.categories@.subrange(0, i + 1).drop_last() =~= self.categories@.subrange(
                    0,
                    i as int,
                ));
            }
            if self.categories[i].user_id == user_id {
                out.push(show_category(&self.categories[i]));
            }
            i += 1;
        }
        proof {
            assert(self.categories@.subrange(0, i as int) =~= self.categories@);
        }
        out
    }
}

/// An edit that leaves both texts as they are.
pub open spec fn unchanged_by(c: CategoryRecord, e: EditCategory) -> bool {
    edited(c, e).category_name@ == c.category_name@ && edited(c, e).description@ == c.description@
}

/// Category `c` after edit `e`: each present field replaces the stored one.
pub open spec fn edited(c: CategoryRecord, e: EditCategory) -> CategoryRecord {
    CategoryRecord {
        category_name: match e.name {
            Some(n) => n,
            None => c.category_name,
        },
        description: match e.description {
            Some(d) => d,
            None => c.description,
        },
        ..c
    }
}

/// With distinct identifiers, the chosen position of a category is the one found.
proof fn lemma_category_position(v: LedgerView, u: u128, id: i32, k: int)
    requires
        v.wf(),
        0 <= k < v.categories.len(),
        v.categories[k].category_id == id,
        v.categories[k].user_id == u,
    ensures
        v.owns_category(u, id),
        v.category_position(u, id) == k,
{
    assert(v.categories[k].category_id == id);
    let p = v.category_position(u, id);
    assert(v.categories[p].category_id == id);
}

/// Position in the rows before a removal at `k` of the row now at `i`.
pub open spec fn before_removal(i: int, k: int) -> int {
    if i < k {
        i
    } else {
        i + 1
    }
}

/// Removing a category that is not a default keeps the ledger well formed.
proof fn lemma_remove_category_wf(v: LedgerView, k: int)
    requires
        v.wf(),
        0 <= k < v.categories.len(),
        !v.categories[k].is_default,
    ensures
        v.with_categories(v.categories.remove(k)).wf(),
{
    let old_cats = v.categories;
    let cats = old_cats.remove(k);
    let nc = v.next_category_id;
    let nb = v.next_budget_id;
    assert forall|i: int| 0 <= i < cats.len() implies #[trigger] cats[i] == old_cats[before_removal(
        i,
        k,
    )] by {}
    assert forall|i: int| 0 <= i < cats.len() implies #[trigger] default_in(cats, cats[i].user_id) by {
        let oi = before_removal(i, k);
        assert(cats[i] == old_cats[oi]);
        assert(default_in(old_cats, old_cats[oi].user_id));
        let j = choose|j: int|
            0 <= j < old_cats.len() && #[trigger] old_cats[j].user_id == old_cats[oi].user_id
                && old_cats[j].is_default;
        let nj = if j < k {
            j
        } else {
            j - 1
        };
        assert(cats[nj] == old_cats[j]);
    }
    assert(default_present(cats));
    assert forall|i: int, j: int|
        0 <= i < cats.len() && 0 <= j < cats.len() && #[trigger] cats[i].is_default
            && #[trigger] cats[j].is_default && cats[i].user_id == cats[j].user_id implies i
        == j by {
        assert(cats[i] == old_cats[before_removal(i, k)]);
        assert(cats[j] == old_cats[before_removal(j, k)]);
    }
    assert(default_unique(cats));
    assert forall|i: int, j: int|
        0 <= i < cats.len() && 0 <= j < cats.len() && i != j implies #[trigger] cats[i].category_id
        != #[trigger] cats[j].category_id by {
        assert(cats[i] == old_cats[before_removal(i, k)]);
        assert(cats[j] == old_cats[before_removal(j, k)]);
    }
    assert forall|i: int, j: int|
        0 <= i < cats.len() && 0 <= j < cats.len() && i != j && (#[trigger] cats[i].budget) is Some
            && (#[trigger] cats[j].budget) is Some implies cats[i].budget->0.budget_id
        != cats[j].budget->0.budget_id by {
        assert(cats[i] == old_cats[before_removal(i, k)]);
        assert(cats[j] == old_cats[before_removal(j, k)]);
    }
    assert forall|i: int| 0 <= i < cats.len() && (#[trigger] cats[i].budget) is Some implies budget_wf(
        cats[i].budget->0,
        cats[i],
        nb,
    ) by {
        assert(cats[i] == old_cats[before_removal(i, k)]);
    }
    assert forall|i: int| 0 <= i < cats.len() implies 1 <= #[trigger] cats[i].category_id < nc by {
        assert(cats[i] == old_cats[before_removal(i, k)]);
    }
    assert(categories_wf(cats, nc, nb));
}

/// Replacing a category row by one with the same identifier, owner, default
/// flag and budget keeps the ledger well formed.
proof fn lemma_update_category_wf(v: LedgerView, k: int, row: CategoryRecord)
    requires
        v.wf(),
        0 <= k < v.categories.len(),
        row.category_id == v.categories[k].category_id,
        row.user_id == v.categories[k].user_id,
        row.is_default == v.categories[k].is_default,
        row.budget == v.categories[k].budget,
    ensures
        v.with_categories(v.categories.update(k, row)).wf(),
{
    let old_cats = v.categories;
    let cats = old_cats.update(k, row);
    let nc = v.next_category_id;
    let nb = v.next_budget_id;
    assert forall|i: int| 0 <= i < cats.len() implies #[trigger] cats[i].category_id
        == old_cats[i].category_id && cats[i].budget == old_cats[i].budget && cats[i].user_id
        == old_cats[i].user_id && cats[i].is_default == old_cats[i].is_default by {}
    assert forall|i: int| 0 <= i < cats.len() implies #[trigger] default_in(cats, cats[i].user_id) by {
        assert(default_in(old_cats, old_cats[i].user_id));
        let j = choose|j: int|
            0 <= j < old_cats.len() && #[trigger] old_cats[j].user_id == old_cats[i].user_id
                && old_cats[j].is_default;
        assert(cats[j].user_id == old_cats[j].user_id);
    }
    assert(default_present(cats));
    assert forall|i: int, j: int|
        0 <= i < cats.len() && 0 <= j < cats.len() && #[trigger] cats[i].is_default
            && #[trigger] cats[j].is_default && cats[i].user_id == cats[j].user_id implies i
        == j by {
        assert(old_cats[i].is_default && old_cats[j].is_default);
    }
    assert(default_unique(cats));
    assert forall|i: int| 0 <= i < cats.len() && (#[trigger] cats[i].budget) is Some implies budget_wf(
        cats[i].budget->0,
        cats[i],
        nb,
    ) by {
        assert(old_cats[i].budget is Some);
    }
    assert forall|i: int, j: int|
        0 <= i < cats.len() && 0 <= j < cats.len() && i != j && (#[trigger] cats[i].budget) is Some
            && (#[trigger] cats[j].budget) is Some implies cats[i].budget->0.budget_id
        != cats[j].budget->0.budget_id by {
        assert(old_cats[i].budget is Some && old_cats[j].budget is Some);
    }
    assert forall|i: int, j: int|
        0 <= i < cats.len() && 0 <= j < cats.len() && i != j implies #[trigger] cats[i].category_id
        != #[trigger] cats[j].category_id by {
        assert(old_cats[i].category_id != old_cats[j].category_id);
    }
    assert forall|i: int| 0 <= i < cats.len() implies 1 <= #[trigger] cats[i].category_id < nc by {
        assert(1 <= old_cats[i].category_id < nc);
    }
    assert(categories_wf(cats, nc, nb));
}

/// Making `id` the default of `u` keeps the ledger well formed.
proof fn lemma_with_default_wf(v: LedgerView, u: u128, id: i32, target: int)
    requires
        v.wf(),
        0 <= target < v.categories.len(),
        v.categories[target].category_id == id,
        v.categories[target].user_id == u,
    ensures
        v.with_categories(with_default(v.categories, u, id)).wf(),
{
    let old_cats = v.categories;
    let goal = with_default(old_cats, u, id);
    let cats = goal;
    assert forall|i: int| 0 <= i < cats.len() implies #[trigger] cats[i].category_id
        == old_cats[i].category_id && cats[i].budget == old_cats[i].budget
        && cats[i].user_id == old_cats[i].user_id && (cats[i].user_id != u
        ==> cats[i] == old_cats[i]) by {
        assert(cats[i] == goal[i]);
    }
    assert(cats[target] == goal[target]);
    assert(cats[target].is_default);
    assert(cats[target].user_id == u);
    assert forall|i: int| 0 <= i < cats.len() implies #[trigger] default_in(cats, cats[i].user_id) by {
        if cats[i].user_id == u {
            assert(cats[target].user_id == cats[i].user_id);
        } else {
            assert(default_in(old_cats, old_cats[i].user_id));
            let j = choose|j: int|
                0 <= j < old_cats.len() && #[trigger] old_cats[j].user_id
                    == old_cats[i].user_id && old_cats[j].is_default;
            assert(cats[j] == old_cats[j]);
        }
    }
    assert(default_unique(cats)) by {
        assert forall|i: int, j: int|
            0 <= i < cats.len() && 0 <= j < cats.len() && #[trigger] cats[i].is_default
                && #[trigger] cats[j].is_default && cats[i].user_id
                == cats[j].user_id implies i == j by {
            if cats[i].user_id != u {
                assert(old_cats[i].is_default && old_cats[j].is_default);
            }
        }
    }
    assert forall|i: int, j: int|
        0 <= i < cats.len() && 0 <= j < cats.len() && i != j implies #[trigger] cats[i].category_id
            != #[trigger] cats[j].category_id by {
        assert(old_cats[i].category_id != old_cats[j].category_id);
    }
}

/// Once a user has a category, exactly one of the user's categories is the
/// default: some category of the user is, and no two are.
pub proof fn lemma_one_default_per_user(v: LedgerView, u: u128)
    requires
        v.wf(),
        v.has_category(u),
    ensures
        v.has_default(u),
        forall|i: int, j: int|
            0 <= i < v.categories.len() && 0 <= j < v.categories.len()
                && v.categories[i].user_id == u && v.categories[j].user_id == u
                && #[trigger] v.categories[i].is_default && #[trigger] v.categories[j].is_default
                ==> i == j,
{
    let i = choose|i: int| 0 <= i < v.categories.len() && #[trigger] v.categories[i].user_id == u;
    assert(default_in(v.categories, v.categories[i].user_id));
}

/// What the object store answered to a receipt upload.
pub enum UploadOutcome {
    /// The image is stored at this address.
    Uploaded(String),
    /// The store refused or failed the upload.
    Failed,
}

/// Result of a write that may have stored a receipt image, with the address
/// of an image the caller should delete from the object store because no row
/// refers to it after the write.
pub struct LedgerOutcome<T> {
    pub result: Result<T, LedgerError>,
    pub discard_blob: Option<String>,
}

/// The currency recorded for `u` in `cs`, if any.
pub open spec fn currency_in(cs: Seq<(u128, TransactionCurrency)>, u: u128) -> Option<TransactionCurrency> {
    if exists|i: int| 0 <= i < cs.len() && #[trigger] cs[i].0 == u {
        Some(cs[choose|i: int| 0 <= i < cs.len() && #[trigger] cs[i].0 == u].1)
    } else {
        None
    }
}

/// The address an upload stored an image at, if it did.
pub open spec fn uploaded_url(upload: Option<UploadOutcome>) -> Option<String> {
    match upload {
        Some(UploadOutcome::Uploaded(url)) => Some(url),
        _ => None,
    }
}

/// Whether an upload was attempted and failed.
pub open spec fn upload_failed(upload: Option<UploadOutcome>) -> bool {
    upload == Some(UploadOutcome::Failed)
}

/// The transactions of `u` among `txs` that are not deleted, shown, in
/// stored order; with `cat`, only those of that category.
pub open spec fn live_of(txs: Seq<TransactionRecord>, u: u128, cat: Option<i32>) -> Seq<
    TransactionOutcomeWithReceipt,
>
    decreases txs.len(),
{
    if txs.len() == 0 {
        Seq::empty()
    } else {
        let rest = live_of(txs.drop_last(), u, cat);
        let t = txs.last();
        if t.user_id == u && !t.deleted && (cat is None || t.category_id == cat->0) {
            rest.push(outcome_of(t))
        } else {
            rest
        }
    }
}

/// Transaction `t` after a partial update: each present field replaces the
/// stored one, and the receipt becomes `receipt`.
pub open spec fn updated(t: TransactionRecord, o: ObjectTransaction, receipt: Option<Receipt>) -> TransactionRecord {
    TransactionRecord {
        description: match o.description {
            Some(d) => d,
            None => t.description,
        },
        amount: match o.amount {
            Some(a) => a,
            None => t.amount,
        },
        currency: match o.currency {
            Some(c) => c,
            None => t.currency,
        },
        receipt,
        ..t
    }
}

impl LedgerView {
    /// Whether transaction `id` exists, belongs to `u` and is not deleted.
    pub open spec fn owns_transaction(self, u: u128, id: i32) -> bool {
        exists|i: int|
            0 <= i < self.transactions.len() && #[trigger] self.transactions[i].transaction_id == id
                && self.transactions[i].user_id == u && !self.transactions[i].deleted
    }

    /// Whether `u` has a transaction row `id`, deleted or not.
    pub open spec fn has_transaction(self, u: u128, id: i32) -> bool {
        exists|i: int|
            0 <= i < self.transactions.len() && #[trigger] self.transactions[i].transaction_id == id
                && self.transactions[i].user_id == u
    }

    /// Position of transaction row `id` of `u`, deleted or not.
    pub open spec fn row_position(self, u: u128, id: i32) -> int {
        choose|i: int|
            0 <= i < self.transactions.len() && #[trigger] self.transactions[i].transaction_id == id
                && self.transactions[i].user_id == u
    }

    /// Transaction row `id` of `u`, deleted or not, as stored.
    pub open spec fn stored_row(self, u: u128, id: i32) -> TransactionRecord {
        self.transactions[self.row_position(u, id)]
    }

    /// Position of live transaction `id` of `u`.
    pub open spec fn transaction_position(self, u: u128, id: i32) -> int {
        choose|i: int|
            0 <= i < self.transactions.len() && #[trigger] self.transactions[i].transaction_id == id
                && self.transactions[i].user_id == u && !self.transactions[i].deleted
    }

    /// The default currency of `u`, if the user has one.
    pub open spec fn default_currency(self, u: u128) -> Option<TransactionCurrency> {
        currency_in(self.currencies, u)
    }

    /// The category a new transaction of `u` goes to: the one named, if the
    /// user owns it, else the user's default one.
    pub open spec fn resolve_category(self, u: u128, requested: Option<i32>) -> Result<i32, LedgerError> {
        match requested {
            Some(c) => if self.owns_category(u, c) {
                Ok(c)
            } else {
                Err(LedgerError::NotFound)
            },
            None => if self.has_default(u) {
                Ok(self.categories[self.default_position(u)].category_id)
            } else {
                Err(LedgerError::NoDefaultCategory)
            },
        }
    }

    /// The currency a new transaction of `u` is recorded in: the one named,
    /// else the user's default one.
    pub open spec fn resolve_currency(self, u: u128, requested: Option<TransactionCurrency>) -> Result<
        TransactionCurrency,
        LedgerError,
    > {
        match requested {
            Some(c) => Ok(c),
            None => match self.default_currency(u) {
                Some(c) => Ok(c),
                None => Err(LedgerError::NoDefaultCurrency),
            },
        }
    }

    /// Category and currency of a new transaction of `u`, the category
    /// resolved first.
    pub open spec fn resolve(self, u: u128, req: Transaction) -> Result<(i32, TransactionCurrency), LedgerError> {
        match self.resolve_category(u, req.category_id) {
            Err(e) => Err(e),
            Ok(c) => match self.resolve_currency(u, req.currency) {
                Err(e) => Err(e),
                Ok(cur) => Ok((c, cur)),
            },
        }
    }

    /// The row a new transaction of `u` gets, with the receipt at `url` if any.
    pub open spec fn new_transaction_row(
        self,
        u: u128,
        req: Transaction,
        category_id: i32,
        currency: TransactionCurrency,
        url: Option<String>,
    ) -> TransactionRecord {
        TransactionRecord {
            transaction_id: self.next_transaction_id,
            user_id: u,
            amount: req.amount,
            category_id,
            description: req.description,
            date: req.transaction_date,
            transaction_type: req.transaction_type,
            currency,
            receipt: match url {
                Some(s) => Some(
                    Receipt {
                        id: self.next_receipt_id,
                        transaction_id: self.next_transaction_id,
                        receipt_url: s,
                        user_id: u,
                    },
                ),
                None => None,
            },
            deleted: false,
        }
    }

    /// The ledger with transaction `row` added; a receipt it carries used the
    /// next receipt identifier.
    pub open spec fn with_new_transaction(self, row: TransactionRecord) -> LedgerView {
        LedgerView {
            transactions: self.transactions.push(row),
            next_transaction_id: (self.next_transaction_id + 1) as i32,
            next_receipt_id: if row.receipt is Some {
                (self.next_receipt_id + 1) as i32
            } else {
                self.next_receipt_id
            },
            ..self
        }
    }

    /// The ledger with its transaction rows replaced by `txs` and the next
    /// receipt identifier set to `next_receipt`.
    pub open spec fn with_transactions(self, txs: Seq<TransactionRecord>, next_receipt: i32) -> LedgerView {
        LedgerView { transactions: txs, next_receipt_id: next_receipt, ..self }
    }
}

/// The receipt transaction `t` has after an update that stored an image at
/// `url`: the existing receipt row is reused with the new address, or a new
/// row takes the next receipt identifier.
pub open spec fn replaced_receipt(v: LedgerView, t: TransactionRecord, url: Option<String>) -> Option<Receipt> {
    match url {
        None => t.receipt,
        Some(s) => Some(
            match t.receipt {
                Some(r) => Receipt { receipt_url: s, ..r },
                None => Receipt {
                    id: v.next_receipt_id,
                    transaction_id: t.transaction_id,
                    receipt_url: s,
                    user_id: t.user_id,
                },
            },
        ),
    }
}

/// Whether an update of `t` that stored an image at `url` needs a receipt
/// identifier that is no longer available.
pub open spec fn receipt_ids_exhausted(v: LedgerView, t: TransactionRecord, url: Option<String>) -> bool {
    url is Some && t.receipt is None && v.next_receipt_id == i32::MAX
}

/// The next receipt identifier after an update of `t` that stored an image at `url`.
pub open spec fn next_receipt_after(v: LedgerView, t: TransactionRecord, url: Option<String>) -> i32 {
    if url is Some && t.receipt is None {
        (v.next_receipt_id + 1) as i32
    } else {
        v.next_receipt_id
    }
}

/// The live transaction `id` of `u`, as stored.
pub open spec fn live_row(v: LedgerView, u: u128, id: i32) -> TransactionRecord {
    v.transactions[v.transaction_position(u, id)]
}

/// The address of the receipt image of `t`, if it has one.
pub open spec fn receipt_url_of(t: TransactionRecord) -> Option<String> {
    match t.receipt {
        Some(r) => Some(r.receipt_url),
        None => None,
    }
}

fn copy_receipt(r: &Option<Receipt>) -> (o: Option<Receipt>)
    ensures
        o == *r,
{
    match r {
        Some(x) => Some(
            Receipt {
                id: x.id,
                transaction_id: x.transaction_id,
                receipt_url: x.receipt_url.clone(),
                user_id: x.user_id,
            },
        ),
        None => None,
    }
}

fn url_of(r: &Option<Receipt>) -> (o: Option<String>)
    ensures
        o == match *r {
            Some(x) => Some(x.receipt_url),
            None => None::<String>,
        },
{
    match r {
        Some(x) => Some(x.receipt_url.clone()),
        None => None,
    }
}

fn show_transaction(t: &TransactionRecord) -> (o: TransactionOutcomeWithReceipt)
    ensures
        o == outcome_of(*t),
{
    TransactionOutcomeWithReceipt {
        transaction_id: t.transaction_id,
        amount: t.amount,
        category_id: t.category_id,
        description: t.description.clone(),
        date: t.date,
        transaction_type: t.transaction_type,
        receipt_id: match &t.receipt {
            Some(r) => Some(r.id),
            None => None,
        },
        receipt_url: url_of(&t.receipt),
        user_id: t.user_id,
        currency: t.currency,
    }
}

fn rebuild(t: &TransactionRecord, category_id: i32, deleted: bool, receipt: Option<Receipt>) -> (o:
    TransactionRecord)
    ensures
        o == (TransactionRecord { category_id, deleted, receipt, ..*t }),
{
    TransactionRecord {
        transaction_id: t.transaction_id,
        user_id: t.user_id,
        amount: t.amount,
        category_id,
        description: t.description.clone(),
        date: t.date,
        transaction_type: t.transaction_type,
        currency: t.currency,
        receipt,
        deleted,
    }
}

impl Ledger {
    fn row_index(&self, user_id: u128, transaction_id: i32) -> (r: Option<usize>)
        requires
            self@.wf(),
        ensures
            match r {
                Some(i) => i < self@.transactions.len() && i == self@.row_position(
                    user_id,
                    transaction_id,
                ) && self@.has_transaction(user_id, transaction_id),
                None => !self@.has_transaction(user_id, transaction_id),
            },
    {
        let mut i: usize = 0;
        while i < self.transactions.len()
            invariant
                self@.wf(),
                i <= self.transactions@.len(),
                forall|k: int|
                    0 <= k < i ==> !(#[trigger] self.transactions@[k].transaction_id
                        == transaction_id && self.transactions@[k].user_id == user_id),
            decreases self.transactions@.len() - i,
        {
            let t = &self.transactions[i];
            if t.transaction_id == transaction_id && t.user_id == user_id {
                proof {
                    assert(self@.transactions[i as int].transaction_id == transaction_id);
                    let p = self@.row_position(user_id, transaction_id);
                    assert(self@.transactions[p].transaction_id == transaction_id);
                    assert(p == i as int);
                }
                return Some(i);
            }
            i += 1;
        }
        None
    }

    fn transaction_index(&self, user_id: u128, transaction_id: i32) -> (r: Option<usize>)
        requires
            self@.wf(),
        ensures
            match r {
                Some(i) => i < self@.transactions.len() && i == self@.transaction_position(
                    user_id,
                    transaction_id,
                ) && self@.owns_transaction(user_id, transaction_id),
                None => !self@.owns_transaction(user_id, transaction_id),
            },
    {
        let mut i: usize = 0;
        while i < self.transactions.len()
            invariant
                self@.wf(),
                i <= self.transactions@.len(),
                forall|k: int|
                    0 <= k < i ==> !(#[trigger] self.transactions@[k].transaction_id
                        == transaction_id && self.transactions@[k].user_id == user_id
                        && !self.transactions@[k].deleted),
            decreases self.transactions@.len() - i,
        {
            let t = &self.transactions[i];
            if t.transaction_id == transaction_id && t.user_id == user_id && !t.deleted {
                proof {
                    assert(self@.transactions[i as int].transaction_id == transaction_id);
                    let p = self@.transaction_position(user_id, transaction_id);
                    assert(self@.transactions[p].transaction_id == transaction_id);
                    assert(p == i as int);
                }
                return Some(i);
            }
            i += 1;
        }
        None
    }

    fn currency_index(&self, user_id: u128) -> (r: Option<usize>)
        ensures
            match r {
                Some(i) => i < self@.currencies.len() && self@.currencies[i as int].0 == user_id,
                None => forall|k: int|
                    0 <= k < self@.currencies.len() ==> #[trigger] self@.currencies[k].0 != user_id,
            },
    {
        let mut i: usize = 0;
        while i < self.currencies.len()
            invariant
                i <= self.currencies@.len(),
                forall|k: int| 0 <= k < i ==> #[trigger] self.currencies@[k].0 != user_id,
            decreases self.currencies@.len() - i,
        {
            if self.currencies[i].0 == user_id {
                return Some(i);
            }
            i += 1;
        }
        None
    }

    fn currency_of(&self, user_id: u128) -> (r: Option<TransactionCurrency>)
        requires
            self@.wf(),
        ensures
            r == self@.default_currency(user_id),
    {
        match self.currency_index(user_id) {
            Some(i) => {
                proof {
                    let cs = self@.currencies;
                    assert(cs[i as int].0 == user_id);
                    let p = choose|p: int| 0 <= p < cs.len() && #[trigger] cs[p].0 == user_id;
                    assert(cs[p].0 == user_id);
                    assert(p == i as int);
                }
                Some(self.currencies[i].1)
            },
            None => None,
        }
    }

    /// Sets the default currency of `user_id`.
    pub fn set_default_currency(&mut self, user_id: u128, currency: TransactionCurrency)
        requires
            old(self)@.wf(),
        ensures
            final(self)@.wf(),
            final(self)@.default_currency(user_id) == Some(currency),
            forall|w: u128|
                w != user_id ==> #[trigger] final(self)@.default_currency(w) == old(
                    self,
                )@.default_currency(w),
            final(self)@.transactions == old(self)@.transactions,
            final(self)@.categories == old(self)@.categories,
            final(self)@.next_transaction_id == old(self)@.next_transaction_id,
            final(self)@.next_receipt_id == old(self)@.next_receipt_id,
            final(self)@.next_category_id == old(self)@.next_category_id,
            final(self)@.next_budget_id == old(self)@.next_budget_id,
    {
        let ghost old_cs = self.currencies@;
        let found = self.currency_index(user_id);
        if let Some(i) = found {
            self.currencies.set(i, (user_id, currency));
            proof {
                let cs = self.currencies@;
                assert forall|a: int, b: int|
                    0 <= a < cs.len() && 0 <= b < cs.len() && a != b implies #[trigger] cs[a].0
                    != #[trigger] cs[b].0 by {
                    assert(old_cs[a].0 != old_cs[b].0);
                }
                assert(cs[i as int].0 == user_id);
                let p = choose|p: int| 0 <= p < cs.len() && #[trigger] cs[p].0 == user_id;
                assert(cs[p].0 == user_id);
                assert forall|w: u128| w != user_id implies #[trigger] self@.default_currency(w)
                    == currency_in(old_cs, w) by {
                    if exists|q: int| 0 <= q < old_cs.len() && #[trigger] old_cs[q].0 == w {
                        let q = choose|q: int| 0 <= q < old_cs.len() && #[trigger] old_cs[q].0 == w;
                        assert(cs[q] == old_cs[q]);
                        let q2 = choose|q2: int| 0 <= q2 < cs.len() && #[trigger] cs[q2].0 == w;
                        assert(cs[q2].0 == w);
                    } else {
                        assert forall|q: int| 0 <= q < cs.len() implies #[trigger] cs[q].0 != w by {
                            if q != i {
                                assert(cs[q] == old_cs[q]);
                            }
                        }
                    }
                }
            }
        } else {
            self.currencies.push((user_id, currency));
            proof {
                let cs = self.currencies@;
                assert forall|k: int| 0 <= k < old_cs.len() implies #[trigger] cs[k] == old_cs[k] by {}
                assert(cs[old_cs.len() as int].0 == user_id);
                assert forall|a: int, b: int|
                    0 <= a < cs.len() && 0 <= b < cs.len() && a != b implies #[trigger] cs[a].0
                    != #[trigger] cs[b].0 by {
                    if a < old_cs.len() && b < old_cs.len() {
                        assert(old_cs[a].0 != old_cs[b].0);
                    }
                }
                let p = choose|p: int| 0 <= p < cs.len() && #[trigger] cs[p].0 == user_id;
                assert(cs[p].0 == user_id);
                assert forall|w: u128| w != user_id implies #[trigger] self@.default_currency(w)
                    == currency_in(old_cs, w) by {
                    if exists|q: int| 0 <= q < old_cs.len() && #[trigger] old_cs[q].0 == w {
                        let q = choose|q: int| 0 <= q < old_cs.len() && #[trigger] old_cs[q].0 == w;
                        assert(cs[q] == old_cs[q]);
                        let q2 = choose|q2: int| 0 <= q2 < cs.len() && #[trigger] cs[q2].0 == w;
                        assert(cs[q2].0 == w);
                    } else {
                        assert forall|q: int| 0 <= q < cs.len() implies #[trigger] cs[q].0 != w by {
                            if q < old_cs.len() {
                                assert(cs[q] == old_cs[q]);
                            }
                        }
                    }
                }
            }
        }
    }
}

impl Ledger {
    /// Identifier of the default category of `user_id`.
    pub fn get_users_default_category(&self, user_id: u128) -> (r: Result<i32, LedgerError>)
        requires
            self@.wf(),
        ensures
            r == self@.resolve_category(user_id, None),
    {
        match self.default_index(user_id) {
            Some(k) => {
                proof {
                    let p = self@.default_position(user_id);
                    assert(self@.categories[k as int].user_id == user_id);
                    assert(self@.categories[p].is_default);
                }
                Ok(self.categories[k].category_id)
            },
            None => Err(LedgerError::NoDefaultCategory),
        }
    }

    /// The default currency of `user_id`.
    pub fn get_users_default_currency(&self, user_id: u128) -> (r: Result<CurrencyReturn, LedgerError>)
        requires
            self@.wf(),
        ensures
            self@.default_currency(user_id) is None ==> r is Err && r->Err_0
                == LedgerError::NoDefaultCurrency,
            self@.default_currency(user_id) is Some ==> r is Ok && r->Ok_0.currency
                == self@.default_currency(user_id)->0,
    {
        match self.currency_of(user_id) {
            Some(c) => Ok(CurrencyReturn { currency: c }),
            None => Err(LedgerError::NoDefaultCurrency),
        }
    }

    fn resolve(&self, user_id: u128, req: &Transaction) -> (r: Result<(i32, TransactionCurrency), LedgerError>)
        requires
            self@.wf(),
        ensures
            r == self@.resolve(user_id, *req),
    {
        let category_id = match req.category_id {
            Some(c) => {
                if self.category_index(user_id, c).is_none() {
                    return Err(LedgerError::NotFound);
                }
                c
            },
            None => match self.get_users_default_category(user_id) {
                Ok(c) => c,
                Err(e) => return Err(e),
            },
        };
        let currency = match req.currency {
            Some(c) => c,
            None => match self.get_users_default_currency(user_id) {
                Ok(found) => found.currency,
                Err(e) => return Err(e),
            },
        };
        Ok((category_id, currency))
    }

    /// Checks a new transaction before its receipt is uploaded: resolves its
    /// category and currency and gives the identifier it will be stored
    /// under, from which the receipt's key is built.
    pub fn plan_transaction(&self, user_id: u128, req: &Transaction) -> (r: Result<i32, LedgerError>)
        requires
            self@.wf(),
        ensures
            self@.resolve(user_id, *req) is Err ==> r == Err::<i32, LedgerError>(
                self@.resolve(user_id, *req)->Err_0,
            ),
            self@.resolve(user_id, *req) is Ok && self@.next_transaction_id == i32::MAX ==> r
                == Err::<i32, LedgerError>(LedgerError::InfrastructureError),
            self@.resolve(user_id, *req) is Ok && self@.next_transaction_id < i32::MAX ==> r
                == Ok::<i32, LedgerError>(self@.next_transaction_id),
    {
        match self.resolve(user_id, req) {
            Err(e) => Err(e),
            Ok(_) => {
                if self.next_transaction_id == i32::MAX {
                    Err(LedgerError::InfrastructureError)
                } else {
                    Ok(self.next_transaction_id)
                }
            },
        }
    }

    /// Records a new transaction of `user_id`, with the receipt image that
    /// `upload` stored, if any. Omitted category and currency come from the
    /// user's defaults. Nothing is written unless everything is: a failed
    /// upload writes nothing and leaves nothing to delete; any failure after a
    /// successful upload hands the stored image back for deletion.
    pub fn create_transaction(
        &mut self,
        user_id: u128,
        req: &Transaction,
        upload: Option<UploadOutcome>,
    ) -> (r: LedgerOutcome<TransactionOutcomeWithReceipt>)
        requires
            old(self)@.wf(),
        ensures
            final(self)@.wf(),
            upload_failed(upload) ==> r.result is Err && r.discard_blob is None && final(self)@
                == old(self)@,
            old(self)@.resolve(user_id, *req) is Err ==> r.result == Err::<
                TransactionOutcomeWithReceipt,
                LedgerError,
            >(old(self)@.resolve(user_id, *req)->Err_0) && r.discard_blob == uploaded_url(upload)
                && final(self)@ == old(self)@,
            old(self)@.resolve(user_id, *req) is Ok && upload_failed(upload) ==> r.result == Err::<
                TransactionOutcomeWithReceipt,
                LedgerError,
            >(LedgerError::StorageFailure) && r.discard_blob is None && final(self)@ == old(self)@,
            old(self)@.resolve(user_id, *req) is Ok && !upload_failed(upload) && (old(
                self,
            )@.next_transaction_id == i32::MAX || (uploaded_url(upload) is Some && old(
                self,
            )@.next_receipt_id == i32::MAX)) ==> r.result == Err::<
                TransactionOutcomeWithReceipt,
                LedgerError,
            >(LedgerError::InfrastructureError) && r.discard_blob == uploaded_url(upload)
                && final(self)@ == old(self)@,
            old(self)@.resolve(user_id, *req) is Ok && !upload_failed(upload) && old(
                self,
            )@.next_transaction_id < i32::MAX && (uploaded_url(upload) is None || old(
                self,
            )@.next_receipt_id < i32::MAX) ==> {
                let row = old(self)@.new_transaction_row(
                    user_id,
                    *req,
                    old(self)@.resolve(user_id, *req)->Ok_0.0,
                    old(self)@.resolve(user_id, *req)->Ok_0.1,
                    uploaded_url(upload),
                );
                &&& r.result == Ok::<TransactionOutcomeWithReceipt, LedgerError>(outcome_of(row))
                &&& r.discard_blob is None
                &&& final(self)@ == old(self)@.with_new_transaction(row)
            },
    {
        let (url, failed) = match upload {
            Some(UploadOutcome::Uploaded(u)) => (Some(u), false),
            Some(UploadOutcome::Failed) => (None, true),
            None => (None, false),
        };
        let (category_id, currency) = match self.resolve(user_id, req) {
            Ok(p) => p,
            Err(e) => return LedgerOutcome { result: Err(e), discard_blob: url },
        };
        if failed {
            return LedgerOutcome { result: Err(LedgerError::StorageFailure), discard_blob: None };
        }
        if self.next_transaction_id == i32::MAX || (url.is_some() && self.next_receipt_id
            == i32::MAX) {
            return LedgerOutcome { result: Err(LedgerError::InfrastructureError), discard_blob: url };
        }
        let id = self.next_transaction_id;
        let receipt = match url {
            Some(s) => Some(Receipt { id: self.next_receipt_id, transaction_id: id, receipt_url: s, user_id }),
            None => None,
        };
        let has_receipt = receipt.is_some();
        let row = TransactionRecord {
            transaction_id: id,
            user_id,
            amount: req.amount,
            category_id,
            description: req.description.clone(),
            date: req.transaction_date,
            transaction_type: req.transaction_type,
            currency,
            receipt,
            deleted: false,
        };
        let shown = show_transaction(&row);
        proof {
            lemma_push_transaction_wf(self@, row);
        }
        self.transactions.push(row);
        self.next_transaction_id = id + 1;
        if has_receipt {
            self.next_receipt_id = self.next_receipt_id + 1;
        }
        LedgerOutcome { result: Ok(shown), discard_blob: None }
    }
}

/// Adding a transaction under the next identifier, with a receipt under the
/// next receipt identifier if it has one, keeps the ledger well formed.
proof fn lemma_push_transaction_wf(v: LedgerView, row: TransactionRecord)
    requires
        v.wf(),
        row.transaction_id == v.next_transaction_id,
        v.next_transaction_id < i32::MAX,
        !row.deleted,
        row.receipt is Some ==> row.receipt->0.id == v.next_receipt_id && v.next_receipt_id
            < i32::MAX && row.receipt->0.transaction_id == row.transaction_id
            && row.receipt->0.user_id == row.user_id,
    ensures
        v.with_new_transaction(row).wf(),
{
    let w = v.with_new_transaction(row);
    let old_txs = v.transactions;
    let txs = w.transactions;
    assert forall|i: int| 0 <= i < old_txs.len() implies #[trigger] txs[i] == old_txs[i] by {}
    assert(txs[old_txs.len() as int] == row);
    assert forall|i: int| 0 <= i < txs.len() implies 1 <= #[trigger] txs[i].transaction_id
        < w.next_transaction_id by {
        if i < old_txs.len() {
            assert(txs[i] == old_txs[i]);
        }
    }
    assert forall|i: int, j: int|
        0 <= i < txs.len() && 0 <= j < txs.len() && i != j implies #[trigger] txs[i].transaction_id
        != #[trigger] txs[j].transaction_id by {
        if i < old_txs.len() {
            assert(txs[i] == old_txs[i]);
        }
        if j < old_txs.len() {
            assert(txs[j] == old_txs[j]);
        }
    }
    assert forall|i: int| 0 <= i < txs.len() && (#[trigger] txs[i].receipt) is Some implies receipt_wf(
        txs[i].receipt->0,
        txs[i],
        w.next_receipt_id,
    ) by {
        if i < old_txs.len() {
            assert(txs[i] == old_txs[i]);
        }
    }
    assert forall|i: int, j: int|
        0 <= i < txs.len() && 0 <= j < txs.len() && i != j && (#[trigger] txs[i].receipt) is Some
            && (#[trigger] txs[j].receipt) is Some implies txs[i].receipt->0.id
        != txs[j].receipt->0.id by {
        if i < old_txs.len() {
            assert(txs[i] == old_txs[i]);
        }
        if j < old_txs.len() {
            assert(txs[j] == old_txs[j]);
        }
    }
    assert(transactions_wf(txs, w.next_transaction_id, w.next_receipt_id));
}

impl Ledger {
    /// Checks a transaction before its receipt is replaced: the address of
    /// the image it holds now, which is deleted before the new one is
    /// uploaded.
    pub fn receipt_to_replace(&self, user_id: u128, path: &PathUpdate) -> (r: Result<
        Option<String>,
        LedgerError,
    >)
        requires
            self@.wf(),
        ensures
            !self@.owns_transaction(user_id, path.transaction_id) ==> r == Err::<
                Option<String>,
                LedgerError,
            >(LedgerError::NotFound),
            self@.owns_transaction(user_id, path.transaction_id) ==> r == Ok::<
                Option<String>,
                LedgerError,
            >(receipt_url_of(live_row(self@, user_id, path.transaction_id))),
    {
        match self.transaction_index(user_id, path.transaction_id) {
            Some(k) => Ok(url_of(&self.transactions[k].receipt)),
            None => Err(LedgerError::NotFound),
        }
    }

    /// Updates the description, amount and currency of a live transaction of
    /// `user_id` where `changes` gives them, and points its receipt at the
    /// image that `upload` stored, reusing its receipt row if it has one.
    /// Nothing is written unless everything is; any failure after a
    /// successful upload hands the stored image back for deletion.
    pub fn update_transaction(
        &mut self,
        user_id: u128,
        path: &PathUpdate,
        changes: &ObjectTransaction,
        upload: Option<UploadOutcome>,
    ) -> (r: LedgerOutcome<TransactionOutcomeWithReceipt>)
        requires
            old(self)@.wf(),
        ensures
            final(self)@.wf(),
            upload_failed(upload) ==> r.result is Err && r.discard_blob is None && final(self)@
                == old(self)@,
            !old(self)@.owns_transaction(user_id, path.transaction_id) ==> r.result == Err::<
                TransactionOutcomeWithReceipt,
                LedgerError,
            >(LedgerError::NotFound) && r.discard_blob == uploaded_url(upload) && final(self)@
                == old(self)@,
            old(self)@.owns_transaction(user_id, path.transaction_id) && upload_failed(upload)
                ==> r.result == Err::<TransactionOutcomeWithReceipt, LedgerError>(
                LedgerError::StorageFailure,
            ) && r.discard_blob is None && final(self)@ == old(self)@,
            old(self)@.owns_transaction(user_id, path.transaction_id) && !upload_failed(upload)
                && receipt_ids_exhausted(
                old(self)@,
                live_row(old(self)@, user_id, path.transaction_id),
                uploaded_url(upload),
            ) ==> r.result == Err::<TransactionOutcomeWithReceipt, LedgerError>(
                LedgerError::InfrastructureError,
            ) && r.discard_blob == uploaded_url(upload) && final(self)@ == old(self)@,
            old(self)@.owns_transaction(user_id, path.transaction_id) && !upload_failed(upload)
                && !receipt_ids_exhausted(
                old(self)@,
                live_row(old(self)@, user_id, path.transaction_id),
                uploaded_url(upload),
            ) ==> {
                let t = live_row(old(self)@, user_id, path.transaction_id);
                let row = updated(t, *changes, replaced_receipt(old(self)@, t, uploaded_url(upload)));
                &&& r.result == Ok::<TransactionOutcomeWithReceipt, LedgerError>(outcome_of(row))
                &&& r.discard_blob is None
                &&& final(self)@ == old(self)@.with_transactions(
                    old(self)@.transactions.update(
                        old(self)@.transaction_position(user_id, path.transaction_id),
                        row,
                    ),
                    next_receipt_after(old(self)@, t, uploaded_url(upload)),
                )
            },
    {
        let (url, failed) = match upload {
            Some(UploadOutcome::Uploaded(u)) => (Some(u), false),
            Some(UploadOutcome::Failed) => (None, true),
            None => (None, false),
        };
        let k = match self.transaction_index(user_id, path.transaction_id) {
            Some(k) => k,
            None => return LedgerOutcome { result: Err(LedgerError::NotFound), discard_blob: url },
        };
        if failed {
            return LedgerOutcome { result: Err(LedgerError::StorageFailure), discard_blob: None };
        }
        let t = &self.transactions[k];
        if url.is_some() && t.receipt.is_none() && self.next_receipt_id == i32::MAX {
            return LedgerOutcome { result: Err(LedgerError::InfrastructureError), discard_blob: url };
        }
        let fresh = url.is_some() && t.receipt.is_none();
        let receipt = match url {
            None => copy_receipt(&t.receipt),
            Some(s) => match &t.receipt {
                Some(old_receipt) => Some(
                    Receipt {
                        id: old_receipt.id,
                        transaction_id: old_receipt.transaction_id,
                        receipt_url: s,
                        user_id: old_receipt.user_id,
                    },
                ),
                None => Some(
                    Receipt {
                        id: self.next_receipt_id,
                        transaction_id: t.transaction_id,
                        receipt_url: s,
                        user_id: t.user_id,
                    },
                ),
            },
        };
        let row = TransactionRecord {
            transaction_id: t.transaction_id,
            user_id: t.user_id,
            amount: match changes.amount {
                Some(a) => a,
                None => t.amount,
            },
            category_id: t.category_id,
            description: match &changes.description {
                Some(d) => d.clone(),
                None => t.description.clone(),
            },
            date: t.date,
            transaction_type: t.transaction_type,
            currency: match changes.currency {
                Some(c) => c,
                None => t.currency,
            },
            receipt,
            deleted: t.deleted,
        };
        let shown = show_transaction(&row);
        let next_receipt = if fresh {
            self.next_receipt_id + 1
        } else {
            self.next_receipt_id
        };
        proof {
            lemma_update_transaction_wf(self@, k as int, row, next_receipt);
        }
        self.transactions.set(k, row);
        self.next_receipt_id = next_receipt;
        LedgerOutcome { result: Ok(shown), discard_blob: None }
    }

    /// Soft-deletes transaction `transaction_id` of `user_id` and removes its
    /// receipt row. Gives the address of the receipt image, which the caller
    /// deletes from the object store after the rows are gone. A row that is
    /// already deleted holds no receipt and stays as it is.
    pub fn delete_transaction(&mut self, user_id: u128, path: &TransactionId) -> (r: Result<
        Option<String>,
        LedgerError,
    >)
        requires
            old(self)@.wf(),
        ensures
            final(self)@.wf(),
            !old(self)@.has_transaction(user_id, path.transaction_id) ==> r == Err::<
                Option<String>,
                LedgerError,
            >(LedgerError::NotFound) && final(self)@ == old(self)@,
            old(self)@.has_transaction(user_id, path.transaction_id) && old(self)@.stored_row(
                user_id,
                path.transaction_id,
            ).deleted ==> r == Ok::<Option<String>, LedgerError>(None) && final(self)@ == old(
                self,
            )@,
            old(self)@.has_transaction(user_id, path.transaction_id) && !old(self)@.stored_row(
                user_id,
                path.transaction_id,
            ).deleted ==> {
                let t = old(self)@.stored_row(user_id, path.transaction_id);
                &&& r == Ok::<Option<String>, LedgerError>(receipt_url_of(t))
                &&& final(self)@ == old(self)@.with_transactions(
                    old(self)@.transactions.update(
                        old(self)@.row_position(user_id, path.transaction_id),
                        TransactionRecord { deleted: true, receipt: None, ..t },
                    ),
                    old(self)@.next_receipt_id,
                )
            },
    {
        let k = match self.row_index(user_id, path.transaction_id) {
            Some(k) => k,
            None => return Err(LedgerError::NotFound),
        };
        let t = &self.transactions[k];
        if t.deleted {
            return Ok(None);
        }
        let url = url_of(&t.receipt);
        let row = rebuild(t, t.category_id, true, None);
        proof {
            lemma_update_transaction_wf(self@, k as int, row, self@.next_receipt_id);
        }
        self.transactions.set(k, row);
        Ok(url)
    }

    /// Moves transaction `transaction_id` of `user_id`, deleted or not, to
    /// another of the user's categories. The category is checked before any
    /// row is touched.
    pub fn swap_transaction_category(&mut self, user_id: u128, path: &PathSwapTransactionCategory) -> (r:
        Result<(), LedgerError>)
        requires
            old(self)@.wf(),
        ensures
            final(self)@.wf(),
            !old(self)@.owns_category(user_id, path.category_id) || !old(self)@.has_transaction(
                user_id,
                path.transaction_id,
            ) ==> r == Err::<(), LedgerError>(LedgerError::NotFound) && final(self)@ == old(self)@,
            old(self)@.owns_category(user_id, path.category_id) && old(self)@.has_transaction(
                user_id,
                path.transaction_id,
            ) ==> r == Ok::<(), LedgerError>(()) && final(self)@ == old(self)@.with_transactions(
                old(self)@.transactions.update(
                    old(self)@.row_position(user_id, path.transaction_id),
                    TransactionRecord {
                        category_id: path.category_id,
                        ..old(self)@.stored_row(user_id, path.transaction_id)
                    },
                ),
                old(self)@.next_receipt_id,
            ),
    {
        if self.category_index(user_id, path.category_id).is_none() {
            return Err(LedgerError::NotFound);
        }
        let k = match self.row_index(user_id, path.transaction_id) {
            Some(k) => k,
            None => return Err(LedgerError::NotFound),
        };
        let t = &self.transactions[k];
        let row = rebuild(t, path.category_id, t.deleted, copy_receipt(&t.receipt));
        proof {
            lemma_update_transaction_wf(self@, k as int, row, self@.next_receipt_id);
        }
        self.transactions.set(k, row);
        Ok(())
    }

    /// A live transaction of `user_id`, with the address of its receipt.
    pub fn get_transaction_by_id(&self, user_id: u128, path: &TransactionId) -> (r: Result<
        TransactionOutcomeWithReceipt,
        LedgerError,
    >)
        requires
            self@.wf(),
        ensures
            !self@.owns_transaction(user_id, path.transaction_id) ==> r == Err::<
                TransactionOutcomeWithReceipt,
                LedgerError,
            >(LedgerError::NotFound),
            self@.owns_transaction(user_id, path.transaction_id) ==> r == Ok::<
                TransactionOutcomeWithReceipt,
                LedgerError,
            >(outcome_of(live_row(self@, user_id, path.transaction_id))),
    {
        match self.transaction_index(user_id, path.transaction_id) {
            Some(k) => Ok(show_transaction(&self.transactions[k])),
            None => Err(LedgerError::NotFound),
        }
    }

    fn live_transactions(&self, user_id: u128, category_id: Option<i32>) -> (r: Vec<
        TransactionOutcomeWithReceipt,
    >)
        ensures
            r@ == live_of(self@.transactions, user_id, category_id),
    {
        let mut out: Vec<TransactionOutcomeWithReceipt> = Vec::new();
        let mut i: usize = 0;
        while i < self.transactions.len()
            invariant
                i <= self.transactions@.len(),
                out@ == live_of(self.transactions@.subrange(0, i as int), user_id, category_id),
            decreases self.transactions@.len() - i,
        {
            proof {
                assert(self.transactions@.subrange(0, i + 1).drop_last()
                    =~= self.transactions@.subrange(0, i as int));
            }
            let t = &self.transactions[i];
            let wanted = match category_id {
                Some(c) => t.category_id == c,
                None => true,
            };
            if t.user_id == user_id && !t.deleted && wanted {
                out.push(show_transaction(t));
            }
            i += 1;
        }
        proof {
            assert(self.transactions@.subrange(0, i as int) =~= self.transactions@);
        }
        out
    }

    /// Every live transaction of `user_id`, newest first.
    pub fn get_all_transactions_by_user(&self, user_id: u128) -> (r: Vec<
        TransactionOutcomeWithReceipt,
    >)
        ensures
            r@ == newest_first(live_of(self@.transactions, user_id, None)),
            r@.to_multiset() == live_of(self@.transactions, user_id, None).to_multiset(),
            dated_newest_first(r@),
    {
        let r = newest_first_of(self.live_transactions(user_id, None));
        proof {
            lemma_newest_first_permutes(live_of(self@.transactions, user_id, None));
            lemma_newest_first_ordered(live_of(self@.transactions, user_id, None));
        }
        r
    }

    /// Every live transaction of `user_id` in the category named, or in the
    /// user's default category when none is named, newest first.
    pub fn get_all_transactions_by_category(
        &self,
        user_id: u128,
        req: &GetAllTransactionsByCategoriesRequest,
    ) -> (r: Result<Vec<TransactionOutcomeWithReceipt>, LedgerError>)
        requires
            self@.wf(),
        ensures
            req.category_id is Some ==> r is Ok && r->Ok_0@ == newest_first(
                live_of(self@.transactions, user_id, req.category_id),
            ),
            req.category_id is None && !self@.has_default(user_id) ==> r == Err::<
                Vec<TransactionOutcomeWithReceipt>,
                LedgerError,
            >(LedgerError::NoDefaultCategory),
            req.category_id is None && self@.has_default(user_id) ==> r is Ok && r->Ok_0@
                == newest_first(
                live_of(
                    self@.transactions,
                    user_id,
                    Some(self@.categories[self@.default_position(user_id)].category_id),
                ),
            ),
            req.category_id is Some ==> r is Ok && dated_newest_first(r->Ok_0@)
                && r->Ok_0@.to_multiset() == live_of(
                self@.transactions,
                user_id,
                req.category_id,
            ).to_multiset(),
            req.category_id is None && self@.has_default(user_id) ==> r is Ok && dated_newest_first(
                r->Ok_0@,
            ) && r->Ok_0@.to_multiset() == live_of(
                self@.transactions,
                user_id,
                Some(self@.categories[self@.default_position(user_id)].category_id),
            ).to_multiset(),
    {
        let category_id = match req.category_id {
            Some(c) => c,
            None => match self.get_users_default_category(user_id) {
                Ok(c) => c,
                Err(e) => return Err(e),
            },
        };
        let r = newest_first_of(self.live_transactions(user_id, Some(category_id)));
        proof {
            lemma_newest_first_permutes(live_of(self@.transactions, user_id, Some(category_id)));
            lemma_newest_first_ordered(live_of(self@.transactions, user_id, Some(category_id)));
        }
        Ok(r)
    }
}

/// Replacing a transaction row by one with the same identifier whose receipt,
/// if any, keeps the identifier it had or takes a fresh one below
/// `next_receipt`, keeps the ledger well formed.
proof fn lemma_update_transaction_wf(v: LedgerView, k: int, row: TransactionRecord, next_receipt: i32)
    requires
        v.wf(),
        0 <= k < v.transactions.len(),
        row.transaction_id == v.transactions[k].transaction_id,
        v.next_receipt_id <= next_receipt,
        row.receipt is Some ==> receipt_wf(row.receipt->0, row, next_receipt) && ((
        v.transactions[k].receipt is Some && row.receipt->0.id
            == v.transactions[k].receipt->0.id) || row.receipt->0.id >= v.next_receipt_id),
    ensures
        v.with_transactions(v.transactions.update(k, row), next_receipt).wf(),
{
    let old_txs = v.transactions;
    let txs = old_txs.update(k, row);
    let nt = v.next_transaction_id;
    assert forall|i: int| 0 <= i < txs.len() && i != k implies #[trigger] txs[i] == old_txs[i] by {}
    assert forall|i: int| 0 <= i < txs.len() implies 1 <= #[trigger] txs[i].transaction_id < nt by {
        assert(1 <= old_txs[i].transaction_id < nt);
    }
    assert forall|i: int, j: int|
        0 <= i < txs.len() && 0 <= j < txs.len() && i != j implies #[trigger] txs[i].transaction_id
        != #[trigger] txs[j].transaction_id by {
        assert(old_txs[i].transaction_id != old_txs[j].transaction_id);
    }
    assert forall|i: int| 0 <= i < txs.len() && (#[trigger] txs[i].receipt) is Some implies receipt_wf(
        txs[i].receipt->0,
        txs[i],
        next_receipt,
    ) by {
        if i != k {
            assert(old_txs[i].receipt is Some);
        }
    }
    assert forall|i: int, j: int|
        0 <= i < txs.len() && 0 <= j < txs.len() && i != j && (#[trigger] txs[i].receipt) is Some
            && (#[trigger] txs[j].receipt) is Some implies txs[i].receipt->0.id
        != txs[j].receipt->0.id by {
        if i != k && j != k {
            assert(old_txs[i].receipt is Some && old_txs[j].receipt is Some);
        } else if i == k {
            assert(old_txs[j].receipt is Some);
            if old_txs[k].receipt is Some {
                assert(old_txs[k].receipt->0.id != old_txs[j].receipt->0.id);
            }
        } else {
            assert(old_txs[i].receipt is Some);
            if old_txs[k].receipt is Some {
                assert(old_txs[k].receipt->0.id != old_txs[i].receipt->0.id);
            }
        }
    }
    assert(transactions_wf(txs, nt, next_receipt));
}

impl LedgerView {
    /// Whether budget `id` exists and belongs to `u`.
    pub open spec fn owns_budget(self, u: u128, id: i32) -> bool {
        exists|i: int|
            0 <= i < self.categories.len() && (#[trigger] self.categories[i].budget) is Some
                && self.categories[i].budget->0.budget_id == id && self.categories[i].user_id == u
    }

    /// Position of the category that budget `id` of `u` is linked to.
    pub open spec fn budget_position(self, u: u128, id: i32) -> int {
        choose|i: int|
            0 <= i < self.categories.len() && (#[trigger] self.categories[i].budget) is Some
                && self.categories[i].budget->0.budget_id == id && self.categories[i].user_id == u
    }

    /// Budget `id` of `u`, as stored.
    pub open spec fn budget_of(self, u: u128, id: i32) -> Budget {
        self.categories[self.budget_position(u, id)].budget->0
    }

    /// The ledger with the budget of the category at `k` set to `b` and the
    /// next budget identifier set to `next_budget`.
    pub open spec fn with_budget(self, k: int, b: Option<Budget>, next_budget: i32) -> LedgerView {
        LedgerView {
            categories: self.categories.update(k, CategoryRecord { budget: b, ..self.categories[k] }),
            next_budget_id: next_budget,
            ..self
        }
    }

    /// The budget a new budget request for category `c` of `u` creates.
    pub open spec fn new_budget(self, u: u128, c: i32, body: CreateBudgetPost) -> Budget {
        Budget {
            budget_id: self.next_budget_id,
            category_id: c,
            user_id: u,
            amount: body.amount,
            start_date: body.start_date,
            end_date: body.end_date,
            recurring: body.recurring,
            duration_unix: (body.end_date - body.start_date) as i64,
        }
    }
}

fn set_dates(b: &Budget, start_date: i64, end_date: i64) -> (r: Budget)
    requires
        valid_timestamp(start_date),
        valid_timestamp(end_date),
    ensures
        r == (Budget {
            start_date,
            end_date,
            duration_unix: (end_date - start_date) as i64,
            ..*b
        }),
{
    Budget { start_date, end_date, duration_unix: end_date - start_date, ..*b }
}

impl Ledger {
    fn budget_index(&self, user_id: u128, budget_id: i32) -> (r: Option<usize>)
        requires
            self@.wf(),
        ensures
            match r {
                Some(i) => i < self@.categories.len() && i == self@.budget_position(user_id, budget_id)
                    && self@.owns_budget(user_id, budget_id),
                None => !self@.owns_budget(user_id, budget_id),
            },
    {
        let mut i: usize = 0;
        while i < self.categories.len()
            invariant
                self@.wf(),
                i <= self.categories@.len(),
                forall|k: int|
                    0 <= k < i ==> !((#[trigger] self.categories@[k].budget) is Some
                        && self.categories@[k].budget->0.budget_id == budget_id
                        && self.categories@[k].user_id == user_id),
            decreases self.categories@.len() - i,
        {
            let c = &self.categories[i];
            let hit = match &c.budget {
                Some(b) => b.budget_id == budget_id && c.user_id == user_id,
                None => false,
            };
            if hit {
                proof {
                    assert(self@.categories[i as int].budget is Some);
                    let p = self@.budget_position(user_id, budget_id);
                    assert(self@.categories[p].budget is Some);
                    assert(p == i as int);
                }
                return Some(i);
            }
            i += 1;
        }
        None
    }

    fn replace_budget(&mut self, k: usize, b: Option<Budget>, next_budget: i32)
        requires
            old(self)@.wf(),
            k < old(self)@.categories.len(),
            old(self)@.next_budget_id <= next_budget,
            b is Some ==> budget_wf(b->0, old(self)@.categories[k as int], next_budget) && ((old(
                self,
            )@.categories[k as int].budget is Some && b->0.budget_id == old(
                self,
            )@.categories[k as int].budget->0.budget_id) || b->0.budget_id >= old(
                self,
            )@.next_budget_id),
        ensures
            final(self)@ == old(self)@.with_budget(k as int, b, next_budget),
            final(self)@.wf(),
    {
        let c = &self.categories[k];
        let row = CategoryRecord {
            category_id: c.category_id,
            category_name: c.category_name.clone(),
            description: c.description.clone(),
            user_id: c.user_id,
            is_default: c.is_default,
            budget: b,
        };
        proof {
            lemma_replace_budget_wf(self@, k as int, b, next_budget);
        }
        self.categories.set(k, row);
        self.next_budget_id = next_budget;
    }

    /// Ownership check: whether budget `budget_id` exists and belongs to `user_id`.
    pub fn check_budget_exists_db(&self, budget_id: i32, user_id: u128) -> (r: bool)
        requires
            self@.wf(),
        ensures
            r == self@.owns_budget(user_id, budget_id),
    {
        self.budget_index(user_id, budget_id).is_some()
    }

    /// Sets a budget on a category of `user_id` that has none, and links the
    /// category to it. Its duration is the distance between its dates.
    pub fn create_budget_db(&mut self, user_id: u128, path: &CreateBudgetPath, body: &CreateBudgetPost) -> (r:
        Result<Budget, LedgerError>)
        requires
            old(self)@.wf(),
            valid_timestamp(body.start_date),
            valid_timestamp(body.end_date),
        ensures
            final(self)@.wf(),
            !old(self)@.owns_category(user_id, path.category_id) ==> r == Err::<Budget, LedgerError>(
                LedgerError::NotFound,
            ) && final(self)@ == old(self)@,
            old(self)@.owns_category(user_id, path.category_id) && old(self)@.categories[old(
                self,
            )@.category_position(user_id, path.category_id)].budget is Some ==> r == Err::<
                Budget,
                LedgerError,
            >(LedgerError::ValidationError) && final(self)@ == old(self)@,
            old(self)@.owns_category(user_id, path.category_id) && old(self)@.categories[old(
                self,
            )@.category_position(user_id, path.category_id)].budget is None && old(
                self,
            )@.next_budget_id == i32::MAX ==> r == Err::<Budget, LedgerError>(
                LedgerError::InfrastructureError,
            ) && final(self)@ == old(self)@,
            old(self)@.owns_category(user_id, path.category_id) && old(self)@.categories[old(
                self,
            )@.category_position(user_id, path.category_id)].budget is None && old(
                self,
            )@.next_budget_id < i32::MAX ==> r == Ok::<Budget, LedgerError>(
                old(self)@.new_budget(user_id, path.category_id, *body),
            ) && final(self)@ == old(self)@.with_budget(
                old(self)@.category_position(user_id, path.category_id),
                Some(old(self)@.new_budget(user_id, path.category_id, *body)),
                (old(self)@.next_budget_id + 1) as i32,
            ),
    {
        let k = match self.category_index(user_id, path.category_id) {
            Some(k) => k,
            None => return Err(LedgerError::NotFound),
        };
        proof {
            lemma_category_position(self@, user_id, path.category_id, k as int);
        }
        if self.categories[k].budget.is_some() {
            return Err(LedgerError::ValidationError);
        }
        if self.next_budget_id == i32::MAX {
            return Err(LedgerError::InfrastructureError);
        }
        let b = Budget {
            budget_id: self.next_budget_id,
            category_id: path.category_id,
            user_id,
            amount: body.amount,
            start_date: body.start_date,
            end_date: body.end_date,
            recurring: body.recurring,
            duration_unix: body.end_date - body.start_date,
        };
        let next = self.next_budget_id + 1;
        self.replace_budget(k, Some(b), next);
        Ok(b)
    }

    /// Changes the amount of budget `budget_id` of `user_id`.
    pub fn change_budget_amount_db(&mut self, user_id: u128, path: &ChangeBudgetPath, amount: i64) -> (r:
        Result<(), LedgerError>)
        requires
            old(self)@.wf(),
        ensures
            final(self)@.wf(),
            !old(self)@.owns_budget(user_id, path.budget_id) ==> r == Err::<(), LedgerError>(
                LedgerError::NotFound,
            ) && final(self)@ == old(self)@,
            old(self)@.owns_budget(user_id, path.budget_id) ==> r == Ok::<(), LedgerError>(())
                && final(self)@ == old(self)@.with_budget(
                old(self)@.budget_position(user_id, path.budget_id),
                Some(Budget { amount, ..old(self)@.budget_of(user_id, path.budget_id) }),
                old(self)@.next_budget_id,
            ),
    {
        let k = match self.budget_index(user_id, path.budget_id) {
            Some(k) => k,
            None => return Err(LedgerError::NotFound),
        };
        let b = match &self.categories[k].budget {
            Some(b) => Budget { amount, ..*b },
            None => return Err(LedgerError::NotFound),
        };
        let next = self.next_budget_id;
        self.replace_budget(k, Some(b), next);
        Ok(())
    }

    /// Changes whether budget `budget_id` of `user_id` recurs.
    pub fn change_budget_recursing_db(&mut self, user_id: u128, path: &ChangeBudgetPath, recurring: bool) -> (r:
        Result<(), LedgerError>)
        requires
            old(self)@.wf(),
        ensures
            final(self)@.wf(),
            !old(self)@.owns_budget(user_id, path.budget_id) ==> r == Err::<(), LedgerError>(
                LedgerError::NotFound,
            ) && final(self)@ == old(self)@,
            old(self)@.owns_budget(user_id, path.budget_id) ==> r == Ok::<(), LedgerError>(())
                && final(self)@ == old(self)@.with_budget(
                old(self)@.budget_position(user_id, path.budget_id),
                Some(Budget { recurring, ..old(self)@.budget_of(user_id, path.budget_id) }),
                old(self)@.next_budget_id,
            ),
    {
        let k = match self.budget_index(user_id, path.budget_id) {
            Some(k) => k,
            None => return Err(LedgerError::NotFound),
        };
        let b = match &self.categories[k].budget {
            Some(b) => Budget { recurring, ..*b },
            None => return Err(LedgerError::NotFound),
        };
        let next = self.next_budget_id;
        self.replace_budget(k, Some(b), next);
        Ok(())
    }

    /// Moves the dates of budget `budget_id` of `user_id`; its duration is
    /// recomputed from them.
    pub fn change_budget_date_db(
        &mut self,
        user_id: u128,
        path: &ChangeBudgetDatePath,
        body: &ChangeBudgetDateBody,
    ) -> (r: Result<(), LedgerError>)
        requires
            old(self)@.wf(),
            valid_timestamp(body.start_date),
            valid_timestamp(body.end_date),
        ensures
            final(self)@.wf(),
            !old(self)@.owns_budget(user_id, path.budget_id) ==> r == Err::<(), LedgerError>(
                LedgerError::NotFound,
            ) && final(self)@ == old(self)@,
            old(self)@.owns_budget(user_id, path.budget_id) ==> r == Ok::<(), LedgerError>(())
                && final(self)@ == old(self)@.with_budget(
                old(self)@.budget_position(user_id, path.budget_id),
                Some(
                    Budget {
                        start_date: body.start_date,
                        end_date: body.end_date,
                        duration_unix: (body.end_date - body.start_date) as i64,
                        ..old(self)@.budget_of(user_id, path.budget_id)
                    },
                ),
                old(self)@.next_budget_id,
            ),
    {
        let k = match self.budget_index(user_id, path.budget_id) {
            Some(k) => k,
            None => return Err(LedgerError::NotFound),
        };
        let b = match &self.categories[k].budget {
            Some(b) => set_dates(b, body.start_date, body.end_date),
            None => return Err(LedgerError::NotFound),
        };
        let next = self.next_budget_id;
        self.replace_budget(k, Some(b), next);
        Ok(())
    }

    /// Deletes budget `budget_id` of `user_id` and clears its category's link.
    pub fn delete_budget_db(&mut self, user_id: u128, path: &DeleteBudgetPath) -> (r: Result<
        (),
        LedgerError,
    >)
        requires
            old(self)@.wf(),
        ensures
            final(self)@.wf(),
            !old(self)@.owns_budget(user_id, path.budget_id) ==> r == Err::<(), LedgerError>(
                LedgerError::NotFound,
            ) && final(self)@ == old(self)@,
            old(self)@.owns_budget(user_id, path.budget_id) ==> r == Ok::<(), LedgerError>(())
                && final(self)@ == old(self)@.with_budget(
                old(self)@.budget_position(user_id, path.budget_id),
                None,
                old(self)@.next_budget_id,
            ),
    {
        let k = match self.budget_index(user_id, path.budget_id) {
            Some(k) => k,
            None => return Err(LedgerError::NotFound),
        };
        let next = self.next_budget_id;
        self.replace_budget(k, None, next);
        Ok(())
    }
}

/// Replacing the budget of one category by one that belongs to it and keeps
/// its identifier or takes a fresh one keeps the ledger well formed.
proof fn lemma_replace_budget_wf(v: LedgerView, k: int, b: Option<Budget>, next_budget: i32)
    requires
        v.wf(),
        0 <= k < v.categories.len(),
        v.next_budget_id <= next_budget,
        b is Some ==> budget_wf(b->0, v.categories[k], next_budget) && ((v.categories[k].budget is Some
            && b->0.budget_id == v.categories[k].budget->0.budget_id) || b->0.budget_id
            >= v.next_budget_id),
    ensures
        v.with_budget(k, b, next_budget).wf(),
{
    let w = v.with_budget(k, b, next_budget);
    let old_cats = v.categories;
    let cats = w.categories;
    let nc = v.next_category_id;
    assert forall|i: int| 0 <= i < cats.len() implies #[trigger] cats[i].category_id
        == old_cats[i].category_id && cats[i].user_id == old_cats[i].user_id && cats[i].is_default
        == old_cats[i].is_default && (i != k ==> cats[i] == old_cats[i]) by {}
    assert forall|i: int| 0 <= i < cats.len() implies #[trigger] default_in(cats, cats[i].user_id) by {
        assert(default_in(old_cats, old_cats[i].user_id));
        let j = choose|j: int|
            0 <= j < old_cats.len() && #[trigger] old_cats[j].user_id == old_cats[i].user_id
                && old_cats[j].is_default;
        assert(cats[j].user_id == old_cats[j].user_id);
    }
    assert(default_present(cats));
    assert forall|i: int, j: int|
        0 <= i < cats.len() && 0 <= j < cats.len() && #[trigger] cats[i].is_default
            && #[trigger] cats[j].is_default && cats[i].user_id == cats[j].user_id implies i
        == j by {
        assert(old_cats[i].is_default && old_cats[j].is_default);
    }
    assert(default_unique(cats));
    assert forall|i: int| 0 <= i < cats.len() && (#[trigger] cats[i].budget) is Some implies budget_wf(
        cats[i].budget->0,
        cats[i],
        next_budget,
    ) by {
        if i != k {
            assert(old_cats[i].budget is Some);
        }
    }
    assert forall|i: int, j: int|
        0 <= i < cats.len() && 0 <= j < cats.len() && i != j && (#[trigger] cats[i].budget) is Some
            && (#[trigger] cats[j].budget) is Some implies cats[i].budget->0.budget_id
        != cats[j].budget->0.budget_id by {
        if i != k && j != k {
            assert(old_cats[i].budget is Some && old_cats[j].budget is Some);
        } else if i == k {
            assert(old_cats[j].budget is Some);
            if old_cats[k].budget is Some {
                assert(old_cats[k].budget->0.budget_id != old_cats[j].budget->0.budget_id);
            }
        } else {
            assert(old_cats[i].budget is Some);
            if old_cats[k].budget is Some {
                assert(old_cats[k].budget->0.budget_id != old_cats[i].budget->0.budget_id);
            }
        }
    }
    assert forall|i: int, j: int|
        0 <= i < cats.len() && 0 <= j < cats.len() && i != j implies #[trigger] cats[i].category_id
        != #[trigger] cats[j].category_id by {
        assert(old_cats[i].category_id != old_cats[j].category_id);
    }
    assert forall|i: int| 0 <= i < cats.len() implies 1 <= #[trigger] cats[i].category_id < nc by {
        assert(1 <= old_cats[i].category_id < nc);
    }
    assert(categories_wf(cats, nc, next_budget));
}

/// Each transaction listed for `u` is a live row of `txs`.
proof fn lemma_live_of_rows(txs: Seq<TransactionRecord>, u: u128, cat: Option<i32>)
    ensures
        forall|k: int|
            0 <= k < live_of(txs, u, cat).len() ==> exists|j: int|
                0 <= j < txs.len() && !txs[j].deleted && #[trigger] live_of(txs, u, cat)[k]
                    == outcome_of(#[trigger] txs[j]),
    decreases txs.len(),
{
    if txs.len() > 0 {
        let rest = txs.drop_last();
        lemma_live_of_rows(rest, u, cat);
        assert forall|k: int| 0 <= k < live_of(txs, u, cat).len() implies exists|j: int|
            0 <= j < txs.len() && !txs[j].deleted && #[trigger] live_of(txs, u, cat)[k]
                == outcome_of(#[trigger] txs[j]) by {
            if k < live_of(rest, u, cat).len() {
                let j = choose|j: int|
                    0 <= j < rest.len() && !rest[j].deleted && #[trigger] live_of(rest, u, cat)[k]
                        == outcome_of(#[trigger] rest[j]);
                assert(txs[j] == rest[j]);
            } else {
                assert(live_of(txs, u, cat)[k] == outcome_of(txs[txs.len() - 1]));
            }
        }
    }
}

/// A soft-deleted transaction is read by no one: looking it up by its
/// identifier finds nothing, and no listing of transactions, by user or by
/// category, holds it.
pub proof fn lemma_deleted_transactions_hidden(v: LedgerView, i: int, u: u128, cat: Option<i32>)
    requires
        v.wf(),
        0 <= i < v.transactions.len(),
        v.transactions[i].deleted,
    ensures
        !v.owns_transaction(u, v.transactions[i].transaction_id),
        forall|k: int|
            0 <= k < live_of(v.transactions, u, cat).len() ==> (#[trigger] live_of(
                v.transactions,
                u,
                cat,
            )[k]).transaction_id != v.transactions[i].transaction_id,
{
    let txs = v.transactions;
    if v.owns_transaction(u, txs[i].transaction_id) {
        let p = v.transaction_position(u, txs[i].transaction_id);
        assert(txs[p].transaction_id == txs[i].transaction_id);
    }
    lemma_live_of_rows(txs, u, cat);
    assert forall|k: int| 0 <= k < live_of(txs, u, cat).len() implies (#[trigger] live_of(
        txs,
        u,
        cat,
    )[k]).transaction_id != txs[i].transaction_id by {
        let j = choose|j: int|
            0 <= j < txs.len() && !txs[j].deleted && #[trigger] live_of(txs, u, cat)[k]
                == outcome_of(#[trigger] txs[j]);
        assert(txs[j].transaction_id != txs[i].transaction_id || j == i);
    }
}

/// A transaction created without a category or a currency takes the user's
/// default category and default currency; without a default category it
/// fails with `NoDefaultCategory`, and without a default currency with
/// `NoDefaultCurrency`.
pub proof fn lemma_omitted_fields_take_defaults(v: LedgerView, u: u128, req: Transaction)
    requires
        v.wf(),
        req.category_id is None,
        req.currency is None,
    ensures
        !v.has_default(u) ==> v.resolve(u, req) == Err::<(i32, TransactionCurrency), LedgerError>(
            LedgerError::NoDefaultCategory,
        ),
        v.has_default(u) && v.default_currency(u) is None ==> v.resolve(u, req) == Err::<
            (i32, TransactionCurrency),
            LedgerError,
        >(LedgerError::NoDefaultCurrency),
        v.has_default(u) && v.default_currency(u) is Some ==> v.resolve(u, req) == Ok::<
            (i32, TransactionCurrency),
            LedgerError,
        >((v.categories[v.default_position(u)].category_id, v.default_currency(u)->0)),
        v.has_default(u) ==> v.categories[v.default_position(u)].user_id == u
            && v.categories[v.default_position(u)].is_default,
{
}

/// Replacing the receipt of a transaction leaves it exactly one receipt, at
/// the new address; a receipt row it had keeps its identifier.
pub proof fn lemma_receipt_replacement_single(v: LedgerView, t: TransactionRecord, url: String)
    ensures
        replaced_receipt(v, t, Some(url)) is Some,
        replaced_receipt(v, t, Some(url))->0.receipt_url == url,
        t.receipt is Some ==> replaced_receipt(v, t, Some(url))->0.id == t.receipt->0.id,
        t.receipt is None ==> replaced_receipt(v, t, Some(url))->0.id == v.next_receipt_id,
{
}

/// After a live transaction is soft-deleted it holds no receipt, looking it
/// up by its identifier finds nothing, and deleting it again changes nothing.
pub proof fn lemma_soft_delete_hides(v: LedgerView, u: u128, id: i32)
    requires
        v.wf(),
        v.has_transaction(u, id),
        !v.stored_row(u, id).deleted,
    ensures
        ({
            let p = v.row_position(u, id);
            let w = v.with_transactions(
                v.transactions.update(
                    p,
                    TransactionRecord { deleted: true, receipt: None, ..v.stored_row(u, id) },
                ),
                v.next_receipt_id,
            );
            &&& w.transactions[p].receipt is None
            &&& !w.owns_transaction(u, id)
            &&& w.has_transaction(u, id)
            &&& w.stored_row(u, id).deleted
        }),
{
    let p = v.row_position(u, id);
    let t = v.stored_row(u, id);
    let w = v.with_transactions(
        v.transactions.update(p, TransactionRecord { deleted: true, receipt: None, ..t }),
        v.next_receipt_id,
    );
    assert(w.transactions[p].transaction_id == id && w.transactions[p].user_id == u);
    let q = w.row_position(u, id);
    assert(w.transactions[q].transaction_id == id);
    if q != p {
        assert(w.transactions[q] == v.transactions[q]);
        assert(v.transactions[q].transaction_id == v.transactions[p].transaction_id);
    }
    if w.owns_transaction(u, id) {
        let r = w.transaction_position(u, id);
        assert(w.transactions[r].transaction_id == id);
        if r != p {
            assert(w.transactions[r] == v.transactions[r]);
            assert(v.transactions[r].transaction_id == v.transactions[p].transaction_id);
        }
    }
}

/// Every stored budget's duration is the distance between its dates.
pub proof fn lemma_budget_duration(v: LedgerView, u: u128, id: i32)
    requires
        v.wf(),
        v.owns_budget(u, id),
    ensures
        v.budget_of(u, id).duration_unix == v.budget_of(u, id).end_date - v.budget_of(
            u,
            id,
        ).start_date,
{
    let p = v.budget_position(u, id);
    assert(v.categories[p].budget is Some);
}


/// Where an entry dated `date` goes among `s[i..]`, newest first: before the
/// first entry dated strictly earlier, else at the end.
pub open spec fn slot_from(s: Seq<TransactionOutcomeWithReceipt>, date: i64, i: int) -> int
    decreases s.len() - i,
{
    if i < 0 || i >= s.len() {
        s.len() as int
    } else if s[i].date < date {
        i
    } else {
        slot_from(s, date, i + 1)
    }
}

/// `s` ordered newest first; entries of equal date keep their order.
pub open spec fn newest_first(s: Seq<TransactionOutcomeWithReceipt>) -> Seq<
    TransactionOutcomeWithReceipt,
>
    decreases s.len(),
{
    if s.len() == 0 {
        Seq::empty()
    } else {
        let rest = newest_first(s.drop_last());
        rest.insert(slot_from(rest, s.last().date, 0), s.last())
    }
}

/// Whether the dates of `s` never increase.
pub open spec fn dated_newest_first(s: Seq<TransactionOutcomeWithReceipt>) -> bool {
    forall|i: int, j: int| 0 <= i < j < s.len() ==> #[trigger] s[i].date >= #[trigger] s[j].date
}

proof fn lemma_slot_from(s: Seq<TransactionOutcomeWithReceipt>, date: i64, i: int)
    requires
        0 <= i <= s.len(),
    ensures
        i <= slot_from(s, date, i) <= s.len(),
        forall|k: int| i <= k < slot_from(s, date, i) ==> #[trigger] s[k].date >= date,
        slot_from(s, date, i) < s.len() ==> s[slot_from(s, date, i)].date < date,
    decreases s.len() - i,
{
    if i < s.len() && s[i].date >= date {
        lemma_slot_from(s, date, i + 1);
    }
}

fn newest_first_of(items: Vec<TransactionOutcomeWithReceipt>) -> (r: Vec<
    TransactionOutcomeWithReceipt,
>)
    ensures
        r@ == newest_first(items@),
{
    let ghost all = items@;
    let mut rest = items;
    let mut out: Vec<TransactionOutcomeWithReceipt> = Vec::new();
    let n = rest.len();
    let mut i: usize = 0;
    while i < n
        invariant
            n == all.len(),
            i <= n,
            rest@ == all.subrange(i as int, n as int),
            out@ == newest_first(all.subrange(0, i as int)),
        decreases n - i,
    {
        let x = rest.remove(0);
        proof {
            assert(all.subrange(0, i + 1).drop_last() =~= all.subrange(0, i as int));
            assert(x == all[i as int]);
            assert(rest@ =~= all.subrange(i + 1, n as int));
        }
        let mut j: usize = 0;
        while j < out.len() && !(out[j].date < x.date)
            invariant
                j <= out@.len(),
                slot_from(out@, x.date, 0) == slot_from(out@, x.date, j as int),
            decreases out@.len() - j,
        {
            j += 1;
        }
        out.insert(j, x);
        i += 1;
    }
    proof {
        assert(all.subrange(0, n as int) =~= all);
    }
    out
}

/// Lists ordered newest first are ordered by date, newest first.
pub proof fn lemma_newest_first_ordered(s: Seq<TransactionOutcomeWithReceipt>)
    ensures
        dated_newest_first(newest_first(s)),
        newest_first(s).len() == s.len(),
    decreases s.len(),
{
    if s.len() > 0 {
        let rest = newest_first(s.drop_last());
        lemma_newest_first_ordered(s.drop_last());
        let x = s.last();
        lemma_slot_from(rest, x.date, 0);
        let p = slot_from(rest, x.date, 0);
        let r = rest.insert(p, x);
        assert forall|i: int, j: int| 0 <= i < j < r.len() implies #[trigger] r[i].date
            >= #[trigger] r[j].date by {
            if j < p {
                assert(r[i] == rest[i] && r[j] == rest[j]);
            } else if j == p {
                assert(r[i] == rest[i]);
            } else if i < p {
                assert(r[i] == rest[i] && r[j] == rest[j - 1]);
                assert(rest[i].date >= x.date);
                if p < rest.len() {
                    assert(rest[p].date < x.date);
                }
            } else if i == p {
                assert(r[j] == rest[j - 1]);
                assert(rest[p].date < x.date);
                if j - 1 > p {
                    assert(rest[p].date >= rest[j - 1].date);
                }
            } else {
                assert(r[i] == rest[i - 1] && r[j] == rest[j - 1]);
            }
        }
    }
}


/// Ordering newest first neither adds nor drops an entry.
pub proof fn lemma_newest_first_permutes(s: Seq<TransactionOutcomeWithReceipt>)
    ensures
        newest_first(s).to_multiset() == s.to_multiset(),
        newest_first(s).len() == s.len(),
    decreases s.len(),
{
    if s.len() == 0 {
        assert(newest_first(s) =~= s);
    } else {
        let init = s.drop_last();
        let x = s.last();
        lemma_newest_first_permutes(init);
        let rest = newest_first(init);
        lemma_slot_from(rest, x.date, 0);
        let p = slot_from(rest, x.date, 0);
        to_multiset_insert(rest, p, x);
        assert(init.push(x) =~= s);
        to_multiset_build(init, x);
    }
}
} // verus!
