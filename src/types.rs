use vstd::prelude::*;
use vstd::string::StringExecFns;

verus! {

/// Direction of a ledger transaction.
#[derive(PartialEq, Eq, Structural, Clone, Copy, Debug)]
pub enum TransactionType {
    DEPOSIT,
    WITHDRAWAL,
}

/// Currency a transaction is recorded in.
#[derive(PartialEq, Eq, Structural, Clone, Copy, Debug)]
pub enum TransactionCurrency {
    EUR,
    USD,
    WON,
    YEN,
    POUND,
}

/// Wire name of a transaction type.
pub open spec fn kind_name(t: TransactionType) -> Seq<char> {
    match t {
        TransactionType::DEPOSIT => "DEPOSIT"@,
        TransactionType::WITHDRAWAL => "WITHDRAWAL"@,
    }
}

/// Wire name of a currency.
pub open spec fn currency_name(c: TransactionCurrency) -> Seq<char> {
    match c {
        TransactionCurrency::EUR => "EUR"@,
        TransactionCurrency::USD => "USD"@,
        TransactionCurrency::WON => "WON"@,
        TransactionCurrency::YEN => "YEN"@,
        TransactionCurrency::POUND => "POUND"@,
    }
}

/// The transaction type whose wire name is `s`, if any.
pub open spec fn kind_named(s: Seq<char>) -> Option<TransactionType> {
    if s == "DEPOSIT"@ {
        Some(TransactionType::DEPOSIT)
    } else if s == "WITHDRAWAL"@ {
        Some(TransactionType::WITHDRAWAL)
    } else {
        None
    }
}

/// The currency whose wire name is `s`, if any.
pub open spec fn currency_named(s: Seq<char>) -> Option<TransactionCurrency> {
    if s == "EUR"@ {
        Some(TransactionCurrency::EUR)
    } else if s == "USD"@ {
        Some(TransactionCurrency::USD)
    } else if s == "WON"@ {
        Some(TransactionCurrency::WON)
    } else if s == "YEN"@ {
        Some(TransactionCurrency::YEN)
    } else if s == "POUND"@ {
        Some(TransactionCurrency::POUND)
    } else {
        None
    }
}

fn same_text(a: &str, b: &str) -> (r: bool)
    ensures
        r == (a@ == b@),
{
    let x = String::from_str(a);
    let y = String::from_str(b);
    x == y
}

fn rejection(s: &str, tail: &str) -> (r: String)
    ensures
        r@ == s@ + tail@,
{
    let mut e = String::from_str(s);
    e.append(tail);
    e
}

impl TransactionType {
    /// Wire representation of the type.
    pub fn as_str(&self) -> (r: &'static str)
        ensures
            r@ == kind_name(*self),
    {
        match self {
            TransactionType::DEPOSIT => "DEPOSIT",
            TransactionType::WITHDRAWAL => "WITHDRAWAL",
        }
    }

    /// Parses the wire representation; anything else is rejected with a
    /// message naming the input.
    pub fn from_str(s: &str) -> (r: Result<TransactionType, String>)
        ensures
            kind_named(s@) is Some ==> r == Ok::<TransactionType, String>(kind_named(s@)->0),
            kind_named(s@) is None ==> r is Err && r->Err_0@ == s@
                + " is not a valid transaction type."@,
    {
        if same_text(s, "DEPOSIT") {
            Ok(TransactionType::DEPOSIT)
        } else if same_text(s, "WITHDRAWAL") {
            Ok(TransactionType::WITHDRAWAL)
        } else {
            Err(rejection(s, " is not a valid transaction type."))
        }
    }
}

impl TransactionCurrency {
    /// Wire representation of the currency.
    pub fn as_str(&self) -> (r: &'static str)
        ensures
            r@ == currency_name(*self),
    {
        match self {
            TransactionCurrency::EUR => "EUR",
            TransactionCurrency::USD => "USD",
            TransactionCurrency::WON => "WON",
            TransactionCurrency::YEN => "YEN",
            TransactionCurrency::POUND => "POUND",
        }
    }

    /// Parses the wire representation; anything else is rejected with a
    /// message naming the input.
    pub fn from_str(s: &str) -> (r: Result<TransactionCurrency, String>)
        ensures
            currency_named(s@) is Some ==> r == Ok::<TransactionCurrency, String>(
                currency_named(s@)->0,
            ),
            currency_named(s@) is None ==> r is Err && r->Err_0@ == s@
                + " is not a valid currency type."@,
    {
        if same_text(s, "EUR") {
            Ok(TransactionCurrency::EUR)
        } else if same_text(s, "USD") {
            Ok(TransactionCurrency::USD)
        } else if same_text(s, "WON") {
            Ok(TransactionCurrency::WON)
        } else if same_text(s, "YEN") {
            Ok(TransactionCurrency::YEN)
        } else if same_text(s, "POUND") {
            Ok(TransactionCurrency::POUND)
        } else {
            Err(rejection(s, " is not a valid currency type."))
        }
    }
}

/// Every transaction type survives a trip through its wire name.
pub proof fn lemma_type_name_round_trip(t: TransactionType)
    ensures
        kind_named(kind_name(t)) == Some(t),
{
    reveal_strlit("DEPOSIT");
    reveal_strlit("WITHDRAWAL");
    assert("DEPOSIT"@.len() != "WITHDRAWAL"@.len());
}

/// Every currency survives a trip through its wire name.
pub proof fn lemma_currency_name_round_trip(c: TransactionCurrency)
    ensures
        currency_named(currency_name(c)) == Some(c),
{
    reveal_strlit("EUR");
    reveal_strlit("USD");
    reveal_strlit("WON");
    reveal_strlit("YEN");
    reveal_strlit("POUND");
    assert("EUR"@[0] != "USD"@[0]);
    assert("EUR"@[0] != "WON"@[0]);
    assert("EUR"@[0] != "YEN"@[0]);
    assert("USD"@[0] != "WON"@[0]);
    assert("USD"@[0] != "YEN"@[0]);
    assert("WON"@[0] != "YEN"@[0]);
    assert("POUND"@.len() != "EUR"@.len());
    assert("POUND"@.len() != "USD"@.len());
    assert("POUND"@.len() != "WON"@.len());
    assert("POUND"@.len() != "YEN"@.len());
}

} // verus!
