use budget_app::{Environment, TransactionCurrency, TransactionType};

#[test]
fn transaction_types_round_trip() {
    for t in [TransactionType::DEPOSIT, TransactionType::WITHDRAWAL] {
        assert_eq!(TransactionType::from_str(t.as_str()), Ok(t));
    }
    assert_eq!(TransactionType::DEPOSIT.as_str(), "DEPOSIT");
    assert_eq!(TransactionType::WITHDRAWAL.as_str(), "WITHDRAWAL");
    assert_eq!(
        TransactionType::from_str("deposit"),
        Err("deposit is not a valid transaction type.".to_string())
    );
}

#[test]
fn currencies_round_trip() {
    for c in [
        TransactionCurrency::EUR,
        TransactionCurrency::USD,
        TransactionCurrency::WON,
        TransactionCurrency::YEN,
        TransactionCurrency::POUND,
    ] {
        assert_eq!(TransactionCurrency::from_str(c.as_str()), Ok(c));
    }
    assert_eq!(TransactionCurrency::POUND.as_str(), "POUND");
    assert_eq!(
        TransactionCurrency::from_str("GBP"),
        Err("GBP is not a valid currency type.".to_string())
    );
}

#[test]
fn environment_names_ignore_case() {
    assert_eq!(Environment::Development.as_str(), "development");
    assert_eq!(Environment::Production.as_str(), "production");
    assert_eq!(Environment::try_from("Production".to_string()), Ok(Environment::Production));
    assert_eq!(Environment::try_from("development".to_string()), Ok(Environment::Development));
    assert_eq!(
        Environment::try_from("Staging".to_string()),
        Err("staging is not a supported environment. Use either `development` or `production`."
            .to_string())
    );
    assert_eq!(Environment::from_lowercase("production"), Ok(Environment::Production));
    assert!(Environment::from_lowercase("PRODUCTION").is_err());
}

