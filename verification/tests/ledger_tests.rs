use token_ledger::ledger::ErrorKind;
use token_ledger::ledger::Ledger;

fn s(text: &str) -> String {
    text.to_string()
}

#[test]
fn test_send_tokens() {
    let mut ledger = Ledger::new();
    let sender = s("sender");

    // Initialize sender balance
    ledger.credit(&sender, 100).unwrap();

    // Test sending tokens
    let result = ledger.transfer(&sender, &s("receiver"), 50);
    assert!(result.is_ok());

    // Verify balances
    assert_eq!(ledger.balance_of(&sender), 50);
    assert_eq!(ledger.balance_of(&s("receiver")), 50);
}

#[test]
fn test_insufficient_balance() {
    let mut ledger = Ledger::new();
    let sender = s("sender");

    // Initialize sender balance
    ledger.credit(&sender, 40).unwrap();

    // Test sending more tokens than available
    let result = ledger.transfer(&sender, &s("receiver"), 50);
    assert!(result.is_err());
}

#[test]
fn test_get_balance() {
    let mut ledger = Ledger::new();
    let owner = s("owner");

    // Initialize balance
    ledger.credit(&owner, 100).unwrap();

    assert_eq!(ledger.balance_of(&owner), 100);
}

#[test]
fn insufficient_balance_leaves_both_accounts_unchanged() {
    let mut ledger = Ledger::new();
    ledger.credit(&s("a"), 30).unwrap();
    ledger.credit(&s("r"), 7).unwrap();
    let result = ledger.transfer(&s("a"), &s("r"), 31);
    assert_eq!(result, Err(ErrorKind::InsufficientBalance));
    assert_eq!(ledger.balance_of(&s("a")), 30);
    assert_eq!(ledger.balance_of(&s("r")), 7);
}

#[test]
fn transfer_from_unknown_identity_fails() {
    let mut ledger = Ledger::new();
    ledger.credit(&s("r"), 5).unwrap();
    assert_eq!(
        ledger.transfer(&s("ghost"), &s("r"), 1),
        Err(ErrorKind::AccountNotFound)
    );
    // An identity with no record cannot transfer even an amount of 0.
    assert_eq!(
        ledger.transfer(&s("ghost"), &s("r"), 0),
        Err(ErrorKind::AccountNotFound)
    );
    assert_eq!(ledger.balance_of(&s("r")), 5);
}

#[test]
fn credit_of_zero_changes_no_balance() {
    let mut ledger = Ledger::new();
    ledger.credit(&s("x"), 12).unwrap();
    ledger.credit(&s("x"), 0).unwrap();
    assert_eq!(ledger.balance_of(&s("x")), 12);
    ledger.credit(&s("fresh"), 0).unwrap();
    assert_eq!(ledger.balance_of(&s("fresh")), 0);
}

#[test]
fn two_credits_add_up_like_one() {
    let mut twice = Ledger::new();
    twice.credit(&s("x"), 17).unwrap();
    twice.credit(&s("x"), 25).unwrap();
    let mut once = Ledger::new();
    once.credit(&s("x"), 17 + 25).unwrap();
    assert_eq!(twice.balance_of(&s("x")), once.balance_of(&s("x")));
    assert_eq!(twice.balance_of(&s("x")), 42);
}

#[test]
fn self_transfer_succeeds_and_keeps_the_balance() {
    let mut ledger = Ledger::new();
    ledger.credit(&s("a"), 80).unwrap();
    assert_eq!(ledger.transfer(&s("a"), &s("a"), 80), Ok(()));
    assert_eq!(ledger.balance_of(&s("a")), 80);
}

#[test]
fn self_transfer_never_overflows() {
    let mut ledger = Ledger::new();
    ledger.credit(&s("a"), u64::MAX).unwrap();
    assert_eq!(ledger.transfer(&s("a"), &s("a"), u64::MAX), Ok(()));
    assert_eq!(ledger.balance_of(&s("a")), u64::MAX);
}

#[test]
fn credit_past_the_representable_range_is_refused() {
    let mut ledger = Ledger::new();
    ledger.credit(&s("x"), u64::MAX).unwrap();
    assert_eq!(ledger.credit(&s("x"), 1), Err(ErrorKind::Overflow));
    assert_eq!(ledger.balance_of(&s("x")), u64::MAX);
}

#[test]
fn transfer_that_would_overflow_the_recipient_is_refused() {
    let mut ledger = Ledger::new();
    ledger.credit(&s("a"), 10).unwrap();
    ledger.credit(&s("r"), u64::MAX - 2).unwrap();
    assert_eq!(
        ledger.transfer(&s("a"), &s("r"), 5),
        Err(ErrorKind::Overflow)
    );
    // Atomicity: the debit did not apply either.
    assert_eq!(ledger.balance_of(&s("a")), 10);
    assert_eq!(ledger.balance_of(&s("r")), u64::MAX - 2);
}

#[test]
fn transfer_to_a_fresh_identity_creates_its_record() {
    let mut ledger = Ledger::new();
    ledger.credit(&s("a"), 9).unwrap();
    assert_eq!(ledger.transfer(&s("a"), &s("new"), 0), Ok(()));
    assert_eq!(ledger.balance_of(&s("new")), 0);
    assert_eq!(ledger.transfer(&s("a"), &s("other"), 9), Ok(()));
    assert_eq!(ledger.balance_of(&s("a")), 0);
    assert_eq!(ledger.balance_of(&s("other")), 9);
}

#[test]
fn empty_ledger_scenario() {
    let mut ledger = Ledger::new();
    // Any identity of an empty ledger holds 0.
    assert_eq!(ledger.balance_of(&s("alice")), 0);
    assert_eq!(ledger.balance_of(&s("anyone")), 0);
    ledger.credit(&s("alice"), 100).unwrap();
    assert_eq!(ledger.balance_of(&s("alice")), 100);
    assert_eq!(ledger.transfer(&s("alice"), &s("bob"), 50), Ok(()));
    assert_eq!(ledger.balance_of(&s("alice")), 50);
    assert_eq!(ledger.balance_of(&s("bob")), 50);
    assert_eq!(
        ledger.transfer(&s("alice"), &s("bob"), 100),
        Err(ErrorKind::InsufficientBalance)
    );
    assert_eq!(ledger.balance_of(&s("alice")), 50);
    assert_eq!(ledger.balance_of(&s("bob")), 50);
}

#[test]
fn error_messages() {
    assert_eq!(ErrorKind::AccountNotFound.message(), "Sender not found");
    assert_eq!(
        ErrorKind::InsufficientBalance.message(),
        "Insufficient balance"
    );
    assert_eq!(ErrorKind::Overflow.message(), "Balance overflow");
}
