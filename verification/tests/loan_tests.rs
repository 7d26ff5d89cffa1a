use escrow_ledger::errors::{EscrowError, ProbeOutcome, ValidationError};
use escrow_ledger::loans::LoanLedger;
use escrow_ledger::party::PartyId;

const A: PartyId = PartyId(10);
const B: PartyId = PartyId(20);

fn valid_addr() -> String {
    let mut s = String::from("bc1q");
    while s.len() < 42 {
        s.push('x');
    }
    s
}

#[test]
fn create_loan_assigns_fresh_ids() {
    let mut l = LoanLedger::new();
    let l1 = l.create_loan(A, 100, 50, 7).unwrap();
    assert_eq!(l1.id, 1);
    assert_eq!(l1.owner, A);
    assert_eq!(l1.collateral_amount, 100);
    assert_eq!(l1.loan_amount, 50);
    assert_eq!(l1.created_at, 7);
    let l2 = l.create_loan(B, 1, 2, 8).unwrap();
    let l3 = l.create_loan(A, 3, 4, 9).unwrap();
    assert_eq!((l2.id, l3.id), (2, 3));
}

#[test]
fn create_loan_rejects_zero_amounts() {
    let mut l = LoanLedger::new();
    assert!(matches!(
        l.create_loan(A, 0, 50, 0),
        Err(EscrowError::Validation(ValidationError::NonPositiveAmount))
    ));
    assert!(matches!(
        l.create_loan(A, 50, 0, 0),
        Err(EscrowError::Validation(ValidationError::NonPositiveAmount))
    ));
    assert_eq!(l.get_loans(A).len(), 0);
}

#[test]
fn get_loans_filters_by_owner_in_order() {
    let mut l = LoanLedger::new();
    let l1 = l.create_loan(A, 1, 1, 0).unwrap();
    let l2 = l.create_loan(B, 2, 2, 0).unwrap();
    let l3 = l.create_loan(A, 3, 3, 0).unwrap();
    let a_loans = l.get_loans(A);
    assert_eq!(a_loans.len(), 2);
    assert_eq!(a_loans[0].id, l1.id);
    assert_eq!(a_loans[1].id, l3.id);
    let b_loans = l.get_loans(B);
    assert_eq!(b_loans.len(), 1);
    assert_eq!(b_loans[0].id, l2.id);
    assert_eq!(l.get_loans(PartyId(99)).len(), 0);
}

#[test]
fn link_requires_valid_format_before_anything_else() {
    let mut l = LoanLedger::new();
    assert_eq!(
        l.link_btc_address(A, String::from("xyznotanaddress"), ProbeOutcome::Activity(10)),
        Err(EscrowError::Validation(ValidationError::UnrecognizedFormat))
    );
    assert_eq!(
        l.link_btc_address(A, String::from(""), ProbeOutcome::Activity(10)),
        Err(EscrowError::Validation(ValidationError::EmptyInput))
    );
    assert_eq!(l.get_btc_address(A), None);
}

#[test]
fn link_rejects_dead_and_unreachable_addresses() {
    let mut l = LoanLedger::new();
    assert_eq!(
        l.link_btc_address(A, valid_addr(), ProbeOutcome::Unreachable),
        Err(EscrowError::ExternalCallFailed)
    );
    assert_eq!(
        l.link_btc_address(A, valid_addr(), ProbeOutcome::Activity(0)),
        Err(EscrowError::Validation(ValidationError::NoActivity))
    );
    // No failure committed a binding.
    assert_eq!(l.get_btc_address(A), None);
}

#[test]
fn link_commits_confirmed_address_and_overwrites() {
    let mut l = LoanLedger::new();
    assert_eq!(l.link_btc_address(A, valid_addr(), ProbeOutcome::Activity(3)), Ok(()));
    assert_eq!(l.get_btc_address(A).as_deref(), Some(valid_addr().as_str()));
    assert_eq!(l.get_btc_address(B), None);
    // A second link overwrites, never appends.
    let mut other = String::from("1");
    while other.len() < 27 {
        other.push('C');
    }
    assert_eq!(l.link_btc_address(A, other.clone(), ProbeOutcome::Activity(1)), Ok(()));
    assert_eq!(l.get_btc_address(A).as_deref(), Some(other.as_str()));
}
