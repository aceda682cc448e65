use budget_app::{
    receipt_key, ChangeBudgetDateBody, ChangeBudgetDatePath, ChangeBudgetPath, CreateBudgetPath,
    CreateBudgetPost, CreateCategory, DeleteBudgetPath, DeleteCategory, EditCategory,
    GetAllTransactionsByCategoriesRequest, Ledger, LedgerError, ObjectTransaction, PathCategory,
    PathDefaultCategory, PathSwapTransactionCategory, PathUpdate, Transaction, TransactionCurrency,
    TransactionId, TransactionType, UploadOutcome,
};

const ALICE: u128 = 0x1111;
const BOB: u128 = 0x2222;

fn category(name: &str, description: &str) -> CreateCategory {
    CreateCategory { name: name.to_string(), description: description.to_string() }
}

fn deposit(category_id: Option<i32>, currency: Option<TransactionCurrency>) -> Transaction {
    Transaction {
        amount: 10000,
        category_id,
        description: "Salary".to_string(),
        transaction_date: 1_700_000_000,
        transaction_type: TransactionType::DEPOSIT,
        currency,
    }
}

fn uploaded(url: &str) -> Option<UploadOutcome> {
    Some(UploadOutcome::Uploaded(url.to_string()))
}

/// A ledger where ALICE has a default category (id 1) and USD as default currency.
fn ledger_with_alice() -> Ledger {
    let mut l = Ledger::new();
    l.set_default_currency(ALICE, TransactionCurrency::USD);
    let c = l.create_category(ALICE, &category("General", "Everything else")).unwrap();
    assert_eq!(c.category_id, 1);
    assert!(c.is_default);
    l
}

#[test]
fn create_with_receipt_then_soft_delete_hides_it() {
    let mut l = ledger_with_alice();
    let url = "https://bucket.s3.eu-west-1.amazonaws.com/receipts/alice/1/ticket.png";
    let req = deposit(Some(1), Some(TransactionCurrency::USD));
    assert_eq!(l.plan_transaction(ALICE, &req), Ok(1));
    let out = l.create_transaction(ALICE, &req, uploaded(url));
    assert!(out.discard_blob.is_none());
    let t = out.result.unwrap();
    assert_eq!(t.transaction_id, 1);
    assert_eq!(t.amount, 10000);
    assert_eq!(t.category_id, 1);
    assert_eq!(t.currency, TransactionCurrency::USD);
    assert_eq!(t.transaction_type, TransactionType::DEPOSIT);
    assert_eq!(t.receipt_id, Some(1));
    assert_eq!(t.receipt_url.as_deref(), Some(url));

    let removed = l.delete_transaction(ALICE, &TransactionId { transaction_id: 1 });
    assert_eq!(removed, Ok(Some(url.to_string())));
    let again = l.get_transaction_by_id(ALICE, &TransactionId { transaction_id: 1 });
    assert_eq!(again.err(), Some(LedgerError::NotFound));
    assert!(l.get_all_transactions_by_user(ALICE).is_empty());
    assert_eq!(
        l.receipt_to_replace(ALICE, &PathUpdate { transaction_id: 1 }),
        Err(LedgerError::NotFound)
    );
    assert_eq!(l.delete_transaction(ALICE, &TransactionId { transaction_id: 1 }), Ok(None));
    assert_eq!(
        l.delete_transaction(ALICE, &TransactionId { transaction_id: 2 }),
        Err(LedgerError::NotFound)
    );
    assert_eq!(
        l.delete_transaction(BOB, &TransactionId { transaction_id: 1 }),
        Err(LedgerError::NotFound)
    );
}

#[test]
fn first_category_is_default_and_default_moves() {
    let mut l = ledger_with_alice();
    let second = l.create_category(ALICE, &category("Food", "Groceries and meals")).unwrap();
    assert_eq!(second.category_id, 2);
    assert!(!second.is_default);
    let bobs = l.create_category(BOB, &category("Rent", "Monthly rent")).unwrap();
    assert!(bobs.is_default);

    assert_eq!(l.change_category_default(ALICE, &PathDefaultCategory { category_id: 2 }), Ok(()));
    let all = l.get_all_category_by_user_id(ALICE);
    assert_eq!(all.len(), 2);
    assert_eq!(all.iter().filter(|c| c.is_default).count(), 1);
    assert!(all[1].is_default);
    assert!(!all[0].is_default);
    let bob_all = l.get_all_category_by_user_id(BOB);
    assert_eq!(bob_all.len(), 1);
    assert!(bob_all[0].is_default);

    assert_eq!(
        l.change_category_default(ALICE, &PathDefaultCategory { category_id: 3 }),
        Err(LedgerError::NotFound)
    );
}

#[test]
fn default_category_cannot_be_deleted() {
    let mut l = ledger_with_alice();
    l.create_category(ALICE, &category("Food", "Groceries and meals")).unwrap();
    assert_eq!(
        l.delete_category(ALICE, &DeleteCategory { category_id: 1 }),
        Err(LedgerError::ValidationError)
    );
    assert_eq!(l.delete_category(ALICE, &DeleteCategory { category_id: 2 }), Ok(()));
    assert_eq!(
        l.delete_category(ALICE, &DeleteCategory { category_id: 99 }),
        Err(LedgerError::NotFound)
    );
    assert_eq!(l.get_all_category_by_user_id(ALICE).len(), 1);
}

#[test]
fn category_lengths_are_checked() {
    let mut l = Ledger::new();
    assert_eq!(
        l.create_category(ALICE, &category("ab", "long enough")).err(),
        Some(LedgerError::ValidationError)
    );
    assert_eq!(
        l.create_category(ALICE, &category("abc", &"d".repeat(501))).err(),
        Some(LedgerError::ValidationError)
    );
    assert!(l.create_category(ALICE, &category("abc", &"d".repeat(500))).is_ok());
    assert!(l.get_all_category_by_user_id(ALICE)[0].is_default);
}

#[test]
fn edit_category_fields() {
    let mut l = ledger_with_alice();
    let path = PathCategory { category_id: 1 };
    let none = EditCategory { name: None, description: None };
    assert!(!none.is_some());
    assert_eq!(l.edit_category(ALICE, &path, &none).err(), Some(LedgerError::ValidationError));

    let same = EditCategory { name: Some("General".to_string()), description: None };
    assert_eq!(l.edit_category(ALICE, &path, &same).err(), Some(LedgerError::ValidationError));

    let rename = EditCategory { name: Some("New Name".to_string()), description: None };
    assert!(rename.is_some());
    let c = l.edit_category(ALICE, &path, &rename).unwrap();
    assert_eq!(c.category_name, "New Name");
    assert_eq!(c.description, "Everything else");
    assert!(c.is_default);

    let both = EditCategory {
        name: Some("Other Name".to_string()),
        description: Some("New Description".to_string()),
    };
    let c = l.edit_category(ALICE, &path, &both).unwrap();
    assert_eq!(c.category_name, "Other Name");
    assert_eq!(c.description, "New Description");

    assert_eq!(
        l.edit_category(BOB, &path, &rename).err(),
        Some(LedgerError::NotFound)
    );
    let read = l.get_category_by_id(ALICE, &path).unwrap();
    assert_eq!(read.category_name, "Other Name");
    assert_eq!(l.get_category_by_id(BOB, &path).err(), Some(LedgerError::NotFound));
}

#[test]
fn omitted_fields_take_the_defaults() {
    let mut l = ledger_with_alice();
    l.create_category(ALICE, &category("Food", "Groceries and meals")).unwrap();
    l.change_category_default(ALICE, &PathDefaultCategory { category_id: 2 }).unwrap();
    let t = l.create_transaction(ALICE, &deposit(None, None), None).result.unwrap();
    assert_eq!(t.category_id, 2);
    assert_eq!(t.currency, TransactionCurrency::USD);
    assert_eq!(t.receipt_id, None);
    assert_eq!(t.receipt_url, None);
}

#[test]
fn missing_defaults_fail_without_a_row() {
    let mut l = Ledger::new();
    let out = l.create_transaction(ALICE, &deposit(None, Some(TransactionCurrency::EUR)), None);
    assert_eq!(out.result.err(), Some(LedgerError::NoDefaultCategory));
    l.create_category(ALICE, &category("General", "Everything else")).unwrap();
    let out = l.create_transaction(ALICE, &deposit(None, None), None);
    assert_eq!(out.result.err(), Some(LedgerError::NoDefaultCurrency));
    assert_eq!(
        l.plan_transaction(ALICE, &deposit(None, None)),
        Err(LedgerError::NoDefaultCurrency)
    );
    assert!(l.get_all_transactions_by_user(ALICE).is_empty());
    let out = l.create_transaction(ALICE, &deposit(None, Some(TransactionCurrency::WON)), None);
    assert_eq!(out.result.unwrap().currency, TransactionCurrency::WON);
}

#[test]
fn failed_upload_leaves_no_row_and_nothing_to_delete() {
    let mut l = ledger_with_alice();
    let out = l.create_transaction(ALICE, &deposit(Some(1), None), Some(UploadOutcome::Failed));
    assert_eq!(out.result.err(), Some(LedgerError::StorageFailure));
    assert!(out.discard_blob.is_none());
    assert!(l.get_all_transactions_by_user(ALICE).is_empty());
    let next = l.create_transaction(ALICE, &deposit(Some(1), None), None).result.unwrap();
    assert_eq!(next.transaction_id, 1);
}

#[test]
fn refused_create_hands_back_the_uploaded_image() {
    let mut l = ledger_with_alice();
    let url = "https://bucket.s3.eu-west-1.amazonaws.com/receipts/alice/9/x.png";
    let out = l.create_transaction(ALICE, &deposit(Some(42), None), uploaded(url));
    assert_eq!(out.result.err(), Some(LedgerError::NotFound));
    assert_eq!(out.discard_blob.as_deref(), Some(url));
    assert!(l.get_all_transactions_by_user(ALICE).is_empty());
}

#[test]
fn foreign_category_is_not_found_on_create() {
    let mut l = ledger_with_alice();
    l.create_category(BOB, &category("Rent", "Monthly rent")).unwrap();
    let out = l.create_transaction(ALICE, &deposit(Some(2), None), None);
    assert_eq!(out.result.err(), Some(LedgerError::NotFound));
}

#[test]
fn replacing_a_receipt_reuses_its_row() {
    let mut l = ledger_with_alice();
    let first = "https://b.s3.r.amazonaws.com/receipts/a/1/one.png";
    let second = "https://b.s3.r.amazonaws.com/receipts/a/1/two.png";
    l.create_transaction(ALICE, &deposit(Some(1), None), uploaded(first)).result.unwrap();
    let path = PathUpdate { transaction_id: 1 };
    assert_eq!(l.receipt_to_replace(ALICE, &path), Ok(Some(first.to_string())));
    let none = ObjectTransaction { description: None, amount: None, currency: None };
    let out = l.update_transaction(ALICE, &path, &none, uploaded(second));
    assert!(out.discard_blob.is_none());
    let t = out.result.unwrap();
    assert_eq!(t.receipt_id, Some(1));
    assert_eq!(t.receipt_url.as_deref(), Some(second));
    assert_eq!(t.description, "Salary");
    assert_eq!(t.amount, 10000);
    let listed = l.get_all_transactions_by_user(ALICE);
    assert_eq!(listed.len(), 1);
    assert_eq!(listed[0].receipt_url.as_deref(), Some(second));
}

#[test]
fn first_receipt_on_update_gets_a_new_row() {
    let mut l = ledger_with_alice();
    l.create_transaction(ALICE, &deposit(Some(1), None), None).result.unwrap();
    let path = PathUpdate { transaction_id: 1 };
    assert_eq!(l.receipt_to_replace(ALICE, &path), Ok(None));
    let none = ObjectTransaction { description: None, amount: None, currency: None };
    let url = "https://b.s3.r.amazonaws.com/receipts/a/1/new.png";
    let t = l.update_transaction(ALICE, &path, &none, uploaded(url)).result.unwrap();
    assert_eq!(t.receipt_id, Some(1));
    assert_eq!(t.receipt_url.as_deref(), Some(url));
}

#[test]
fn update_changes_only_given_fields() {
    let mut l = ledger_with_alice();
    l.create_transaction(ALICE, &deposit(Some(1), None), None).result.unwrap();
    let path = PathUpdate { transaction_id: 1 };
    let amount = ObjectTransaction { description: None, amount: Some(20000), currency: None };
    let t = l.update_transaction(ALICE, &path, &amount, None).result.unwrap();
    assert_eq!(t.amount, 20000);
    assert_eq!(t.currency, TransactionCurrency::USD);
    assert_eq!(t.description, "Salary");
    let currency = ObjectTransaction {
        description: None,
        amount: None,
        currency: Some(TransactionCurrency::EUR),
    };
    let t = l.update_transaction(ALICE, &path, &currency, None).result.unwrap();
    assert_eq!(t.amount, 20000);
    assert_eq!(t.currency, TransactionCurrency::EUR);
    let failed = l.update_transaction(ALICE, &path, &amount, Some(UploadOutcome::Failed));
    assert_eq!(failed.result.err(), Some(LedgerError::StorageFailure));
    let missing = l.update_transaction(
        ALICE,
        &PathUpdate { transaction_id: 5 },
        &amount,
        uploaded("https://b/receipts/x"),
    );
    assert_eq!(missing.result.err(), Some(LedgerError::NotFound));
    assert_eq!(missing.discard_blob.as_deref(), Some("https://b/receipts/x"));
}

#[test]
fn deleted_transactions_are_not_listed() {
    let mut l = ledger_with_alice();
    l.create_transaction(ALICE, &deposit(Some(1), None), None).result.unwrap();
    let mut w = deposit(Some(1), None);
    w.transaction_type = TransactionType::WITHDRAWAL;
    l.create_transaction(ALICE, &w, None).result.unwrap();
    assert_eq!(l.get_all_transactions_by_user(ALICE).len(), 2);
    assert_eq!(l.delete_transaction(ALICE, &TransactionId { transaction_id: 1 }), Ok(None));
    let by_user = l.get_all_transactions_by_user(ALICE);
    assert_eq!(by_user.len(), 1);
    assert_eq!(by_user[0].transaction_id, 2);
    assert_eq!(by_user[0].transaction_type, TransactionType::WITHDRAWAL);
    let by_default = l
        .get_all_transactions_by_category(ALICE, &GetAllTransactionsByCategoriesRequest {
            category_id: None,
        })
        .unwrap();
    assert_eq!(by_default.len(), 1);
    let by_id = l
        .get_all_transactions_by_category(ALICE, &GetAllTransactionsByCategoriesRequest {
            category_id: Some(1),
        })
        .unwrap();
    assert_eq!(by_id.len(), 1);
    assert_eq!(by_id[0].transaction_id, 2);
    assert!(l.get_all_transactions_by_user(BOB).is_empty());
}

#[test]
fn listing_by_default_category_without_one_fails() {
    let l = Ledger::new();
    let r = l.get_all_transactions_by_category(ALICE, &GetAllTransactionsByCategoriesRequest {
        category_id: None,
    });
    assert_eq!(r.err(), Some(LedgerError::NoDefaultCategory));
}

#[test]
fn swap_to_foreign_category_changes_nothing() {
    let mut l = ledger_with_alice();
    l.create_category(BOB, &category("Rent", "Monthly rent")).unwrap();
    l.create_transaction(ALICE, &deposit(Some(1), None), None).result.unwrap();
    let r = l.swap_transaction_category(ALICE, &PathSwapTransactionCategory {
        transaction_id: 1,
        category_id: 2,
    });
    assert_eq!(r, Err(LedgerError::NotFound));
    let t = l.get_transaction_by_id(ALICE, &TransactionId { transaction_id: 1 }).unwrap();
    assert_eq!(t.category_id, 1);

    l.create_category(ALICE, &category("Food", "Groceries and meals")).unwrap();
    let r = l.swap_transaction_category(ALICE, &PathSwapTransactionCategory {
        transaction_id: 1,
        category_id: 3,
    });
    assert_eq!(r, Ok(()));
    let t = l.get_transaction_by_id(ALICE, &TransactionId { transaction_id: 1 }).unwrap();
    assert_eq!(t.category_id, 3);
    let r = l.swap_transaction_category(ALICE, &PathSwapTransactionCategory {
        transaction_id: 7,
        category_id: 3,
    });
    assert_eq!(r, Err(LedgerError::NotFound));
}

#[test]
fn budget_duration_follows_its_dates() {
    let mut l = ledger_with_alice();
    let body = CreateBudgetPost {
        amount: 10000,
        start_date: 1_700_000_000,
        end_date: 1_702_592_000,
        recurring: false,
    };
    let b = l.create_budget_db(ALICE, &CreateBudgetPath { category_id: 1 }, &body).unwrap();
    assert_eq!(b.budget_id, 1);
    assert_eq!(b.duration_unix, 2_592_000);
    assert!(l.check_budget_exists_db(1, ALICE));
    assert!(!l.check_budget_exists_db(1, BOB));
    let c = l.get_category_by_id(ALICE, &PathCategory { category_id: 1 }).unwrap();
    assert_eq!(c.budget_id, Some(1));
    assert_eq!(c.amount, Some(10000));

    assert_eq!(
        l.create_budget_db(ALICE, &CreateBudgetPath { category_id: 1 }, &body).err(),
        Some(LedgerError::ValidationError)
    );
    assert_eq!(
        l.create_budget_db(ALICE, &CreateBudgetPath { category_id: 9 }, &body).err(),
        Some(LedgerError::NotFound)
    );

    let dates = ChangeBudgetDateBody { start_date: 0, end_date: 86_400 };
    assert_eq!(l.change_budget_date_db(ALICE, &ChangeBudgetDatePath { budget_id: 1 }, &dates), Ok(()));
    let c = l.get_category_by_id(ALICE, &PathCategory { category_id: 1 }).unwrap();
    assert_eq!(c.start_date, Some(0));
    assert_eq!(c.end_date, Some(86_400));

    assert_eq!(l.change_budget_amount_db(ALICE, &ChangeBudgetPath { budget_id: 1 }, 20000), Ok(()));
    assert_eq!(l.change_budget_recursing_db(ALICE, &ChangeBudgetPath { budget_id: 1 }, true), Ok(()));
    let c = l.get_category_by_id(ALICE, &PathCategory { category_id: 1 }).unwrap();
    assert_eq!(c.amount, Some(20000));
    assert_eq!(c.recurring, Some(true));
    assert_eq!(
        l.change_budget_amount_db(BOB, &ChangeBudgetPath { budget_id: 1 }, 1),
        Err(LedgerError::NotFound)
    );
}

#[test]
fn budget_of_negative_span_keeps_the_difference() {
    let mut l = ledger_with_alice();
    let body = CreateBudgetPost { amount: 1, start_date: 200, end_date: 100, recurring: true };
    let b = l.create_budget_db(ALICE, &CreateBudgetPath { category_id: 1 }, &body).unwrap();
    assert_eq!(b.duration_unix, -100);
}

#[test]
fn deleting_a_budget_clears_the_link() {
    let mut l = ledger_with_alice();
    let body = CreateBudgetPost { amount: 10000, start_date: 0, end_date: 100, recurring: false };
    l.create_budget_db(ALICE, &CreateBudgetPath { category_id: 1 }, &body).unwrap();
    assert_eq!(l.delete_budget_db(ALICE, &DeleteBudgetPath { budget_id: 1 }), Ok(()));
    let c = l.get_category_by_id(ALICE, &PathCategory { category_id: 1 }).unwrap();
    assert_eq!(c.budget_id, None);
    assert_eq!(c.amount, None);
    assert!(!l.check_budget_exists_db(1, ALICE));
    assert_eq!(
        l.delete_budget_db(ALICE, &DeleteBudgetPath { budget_id: 1 }),
        Err(LedgerError::NotFound)
    );
    let again = l.create_budget_db(ALICE, &CreateBudgetPath { category_id: 1 }, &body).unwrap();
    assert_eq!(again.budget_id, 2);
}

#[test]
fn receipt_key_starts_at_receipts() {
    assert_eq!(
        receipt_key("https://bucket.s3.eu-west-1.amazonaws.com/receipts/u/1/x.png"),
        "receipts/u/1/x.png"
    );
    assert_eq!(receipt_key("https://bucket/other/x.png"), "");
    assert_eq!(receipt_key("receipts"), "receipts");
    assert_eq!(receipt_key("a/receipts/b/receipts/c"), "receipts/b/receipts/c");
}

#[test]
fn listings_are_newest_first() {
    let mut l = ledger_with_alice();
    for date in [100, 300, 200, 300] {
        let mut req = deposit(Some(1), None);
        req.transaction_date = date;
        l.create_transaction(ALICE, &req, None).result.unwrap();
    }
    let dates: Vec<(i32, i64)> =
        l.get_all_transactions_by_user(ALICE).iter().map(|t| (t.transaction_id, t.date)).collect();
    assert_eq!(dates, vec![(2, 300), (4, 300), (3, 200), (1, 100)]);
    let by_category = l
        .get_all_transactions_by_category(ALICE, &GetAllTransactionsByCategoriesRequest {
            category_id: Some(1),
        })
        .unwrap();
    let ids: Vec<i32> = by_category.iter().map(|t| t.transaction_id).collect();
    assert_eq!(ids, vec![2, 4, 3, 1]);
}

#[test]
fn swap_moves_a_deleted_transaction_too() {
    let mut l = ledger_with_alice();
    l.create_category(ALICE, &category("Food", "Groceries and meals")).unwrap();
    l.create_transaction(ALICE, &deposit(Some(1), None), None).result.unwrap();
    l.delete_transaction(ALICE, &TransactionId { transaction_id: 1 }).unwrap();
    let swap = PathSwapTransactionCategory { transaction_id: 1, category_id: 2 };
    assert_eq!(l.swap_transaction_category(ALICE, &swap), Ok(()));
    assert_eq!(l.swap_transaction_category(BOB, &swap), Err(LedgerError::NotFound));
    let by_category = l
        .get_all_transactions_by_category(ALICE, &GetAllTransactionsByCategoriesRequest {
            category_id: Some(2),
        })
        .unwrap();
    assert!(by_category.is_empty());
    assert_eq!(
        l.get_transaction_by_id(ALICE, &TransactionId { transaction_id: 1 }).err(),
        Some(LedgerError::NotFound)
    );
}
