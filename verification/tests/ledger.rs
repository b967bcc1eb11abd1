use at2_node::accounts::{Accounts, Error};
use at2_node::Identity;

fn ident(n: u8) -> Identity {
    Identity { bytes: [n; 32] }
}

#[test]
fn seed_and_first_transfer() {
    let a = ident(1);
    let b = ident(2);
    let mut ledger = Accounts::new();
    ledger.seed(&a, 100, 0);
    assert!(ledger.transfer(&a, 1, &b, 30).is_ok());
    assert_eq!(ledger.get_balance(&a), 70);
    assert_eq!(ledger.get_balance(&b), 30);
    assert_eq!(ledger.get_last_sequence(&a), 1);
    assert_eq!(ledger.get_last_sequence(&b), 0);
}

#[test]
fn replayed_transfer_rejected() {
    let a = ident(1);
    let b = ident(2);
    let mut ledger = Accounts::new();
    ledger.seed(&a, 100, 0);
    assert!(ledger.transfer(&a, 1, &b, 30).is_ok());
    let replay = ledger.transfer(&a, 1, &b, 30);
    assert!(matches!(replay, Err(Error::SequenceMismatch)));
    assert_eq!(ledger.get_balance(&a), 70);
    assert_eq!(ledger.get_balance(&b), 30);
    assert_eq!(ledger.get_last_sequence(&a), 1);
}

#[test]
fn replay_keeps_failing_however_often() {
    let a = ident(1);
    let b = ident(2);
    let mut ledger = Accounts::new();
    ledger.seed(&a, 100, 0);
    assert!(ledger.transfer(&a, 1, &b, 10).is_ok());
    let mut tries: usize = 0;
    while tries < 5 {
        assert!(matches!(ledger.transfer(&a, 1, &b, 10), Err(Error::SequenceMismatch)));
        tries += 1;
    }
    assert_eq!(ledger.get_balance(&a), 90);
    assert_eq!(ledger.get_balance(&b), 10);
}

#[test]
fn overdraft_rejected() {
    let a = ident(1);
    let b = ident(2);
    let mut ledger = Accounts::new();
    ledger.seed(&a, 100, 0);
    assert!(ledger.transfer(&a, 1, &b, 30).is_ok());
    let overdraft = ledger.transfer(&a, 2, &b, 1000);
    assert!(matches!(overdraft, Err(Error::InsufficientBalance)));
    assert_eq!(ledger.get_balance(&a), 70);
    assert_eq!(ledger.get_balance(&b), 30);
    assert_eq!(ledger.get_last_sequence(&a), 1);
}

#[test]
fn sequence_must_be_exactly_next() {
    let a = ident(1);
    let b = ident(2);
    let mut ledger = Accounts::new();
    ledger.seed(&a, 100, 0);
    // Too small (0) and too large (2, 7): both are sequence mismatches.
    assert!(matches!(ledger.transfer(&a, 0, &b, 1), Err(Error::SequenceMismatch)));
    assert!(matches!(ledger.transfer(&a, 2, &b, 1), Err(Error::SequenceMismatch)));
    assert!(matches!(ledger.transfer(&a, 7, &b, 1), Err(Error::SequenceMismatch)));
    assert_eq!(ledger.get_balance(&a), 100);
    assert!(ledger.transfer(&a, 1, &b, 1).is_ok());
    assert_eq!(ledger.get_last_sequence(&a), 1);
}

#[test]
fn unknown_account_defaults_to_zero() {
    let a = ident(1);
    let b = ident(2);
    let untouched = ident(9);
    let mut ledger = Accounts::new();
    assert_eq!(ledger.get_balance(&untouched), 0);
    assert_eq!(ledger.get_last_sequence(&untouched), 0);
    ledger.seed(&a, 100, 0);
    assert!(ledger.transfer(&a, 1, &b, 30).is_ok());
    assert_eq!(ledger.get_balance(&untouched), 0);
    assert_eq!(ledger.get_last_sequence(&untouched), 0);
}

#[test]
fn balances_are_conserved() {
    let a = ident(1);
    let b = ident(2);
    let c = ident(3);
    let mut ledger = Accounts::new();
    ledger.seed(&a, 100, 0);
    ledger.seed(&b, 50, 0);
    let total = |l: &Accounts| -> u64 {
        l.get_balance(&a) + l.get_balance(&b) + l.get_balance(&c)
    };
    assert_eq!(total(&ledger), 150);
    assert!(ledger.transfer(&a, 1, &b, 30).is_ok());
    assert_eq!(total(&ledger), 150);
    assert!(ledger.transfer(&b, 1, &c, 80).is_ok());
    assert_eq!(total(&ledger), 150);
    assert!(ledger.transfer(&c, 1, &a, 5).is_ok());
    assert_eq!(total(&ledger), 150);
    // Rejections conserve too.
    assert!(ledger.transfer(&a, 2, &c, 1000).is_err());
    assert_eq!(total(&ledger), 150);
}

#[test]
fn self_transfer_advances_sequence_only() {
    let a = ident(1);
    let mut ledger = Accounts::new();
    ledger.seed(&a, 100, 0);
    assert!(ledger.transfer(&a, 1, &a, 40).is_ok());
    assert_eq!(ledger.get_balance(&a), 100);
    assert_eq!(ledger.get_last_sequence(&a), 1);
}

#[test]
fn transfer_to_absent_recipient_creates_it() {
    let a = ident(1);
    let b = ident(2);
    let mut ledger = Accounts::new();
    ledger.seed(&a, 100, 7);
    assert!(ledger.transfer(&a, 8, &b, 100).is_ok());
    assert_eq!(ledger.get_balance(&a), 0);
    assert_eq!(ledger.get_balance(&b), 100);
    assert_eq!(ledger.get_last_sequence(&b), 0);
    // The drained sender can still receive.
    assert!(ledger.transfer(&b, 1, &a, 25).is_ok());
    assert_eq!(ledger.get_balance(&a), 25);
    assert_eq!(ledger.get_balance(&b), 75);
}

#[test]
fn identity_equality_is_byte_exact() {
    let a = ident(1);
    let a_again = ident(1);
    let b = ident(2);
    assert!(a.equals(&a_again));
    assert!(!a.equals(&b));
    let mut almost = ident(1);
    almost.bytes[31] = 0;
    assert!(!a.equals(&almost));
}
