use escrow_ledger::errors::{EscrowError, ValidationError};
use escrow_ledger::ledger::EscrowLedger;
use escrow_ledger::party::PartyId;
use escrow_ledger::record::EscrowStatus;

fn valid_addr() -> String {
    let mut s = String::from("1");
    while s.len() < 30 {
        s.push('B');
    }
    s
}

const A: PartyId = PartyId(1);
const B: PartyId = PartyId(2);
const C: PartyId = PartyId(3);

#[test]
fn full_lifecycle_scenario() {
    let mut l = EscrowLedger::new();
    let id = l.create_escrow(A, B, valid_addr(), 100, 50, 1000).unwrap();
    assert_eq!(id, 1);
    let e = l.get_escrow(1).unwrap();
    assert_eq!(e.id, 1);
    assert_eq!(e.borrower, A);
    assert_eq!(e.lender, B);
    assert_eq!(e.collateral_amount, 100);
    assert_eq!(e.loan_amount, 50);
    assert_eq!(e.created_at, 1000);
    assert_eq!(e.status, EscrowStatus::Pending);
    assert_eq!(e.release_time, None);

    assert_eq!(l.lock_escrow(B, 1, 2000), Ok(true));
    let e = l.get_escrow(1).unwrap();
    assert_eq!(e.status, EscrowStatus::Locked);
    assert_eq!(e.release_time, Some(2000));

    assert_eq!(l.release_escrow(A, 1), Ok(true));
    let e = l.get_escrow(1).unwrap();
    assert_eq!(e.status, EscrowStatus::Released);

    assert_eq!(
        l.refund_escrow(B, 1),
        Err(EscrowError::InvalidStateTransition {
            required: EscrowStatus::Locked,
            actual: EscrowStatus::Released,
        })
    );
    assert_eq!(l.get_escrow(1).unwrap().status, EscrowStatus::Released);
}

#[test]
fn refund_path() {
    let mut l = EscrowLedger::new();
    let id = l.create_escrow(A, B, valid_addr(), 7, 3, 10).unwrap();
    assert_eq!(l.lock_escrow(B, id, 20), Ok(true));
    assert_eq!(l.refund_escrow(B, id), Ok(true));
    assert_eq!(l.get_escrow(id).unwrap().status, EscrowStatus::Refunded);
}

#[test]
fn ids_are_fresh_and_increasing() {
    let mut l = EscrowLedger::new();
    let id1 = l.create_escrow(A, B, valid_addr(), 1, 1, 0).unwrap();
    let id2 = l.create_escrow(C, B, valid_addr(), 1, 1, 0).unwrap();
    let id3 = l.create_escrow(A, C, valid_addr(), 1, 1, 0).unwrap();
    assert_eq!((id1, id2, id3), (1, 2, 3));
}

#[test]
fn creation_validates_amounts_and_address() {
    let mut l = EscrowLedger::new();
    assert_eq!(
        l.create_escrow(A, B, valid_addr(), 0, 50, 0),
        Err(EscrowError::Validation(ValidationError::NonPositiveAmount))
    );
    assert_eq!(
        l.create_escrow(A, B, valid_addr(), 100, 0, 0),
        Err(EscrowError::Validation(ValidationError::NonPositiveAmount))
    );
    assert_eq!(
        l.create_escrow(A, B, String::from("1tooshort"), 100, 50, 0),
        Err(EscrowError::Validation(ValidationError::BadLength))
    );
    assert_eq!(
        l.create_escrow(A, B, String::from("xyzxyzxyzxyzxyzxyzxyzxyzxyz"), 100, 50, 0),
        Err(EscrowError::Validation(ValidationError::UnrecognizedFormat))
    );
    // Nothing was created by any failed attempt.
    assert!(matches!(l.get_escrow(1), Err(EscrowError::NotFound)));
}

#[test]
fn unknown_id_is_not_found() {
    let mut l = EscrowLedger::new();
    assert!(matches!(l.get_escrow(99), Err(EscrowError::NotFound)));
    assert_eq!(l.lock_escrow(B, 99, 0), Err(EscrowError::NotFound));
    assert_eq!(l.release_escrow(A, 99), Err(EscrowError::NotFound));
    assert_eq!(l.refund_escrow(B, 99), Err(EscrowError::NotFound));
}

#[test]
fn wrong_caller_is_unauthorized_and_a_no_op() {
    let mut l = EscrowLedger::new();
    let id = l.create_escrow(A, B, valid_addr(), 100, 50, 0).unwrap();
    // Only the lender locks.
    assert_eq!(l.lock_escrow(A, id, 5), Err(EscrowError::Unauthorized));
    assert_eq!(l.lock_escrow(C, id, 5), Err(EscrowError::Unauthorized));
    assert_eq!(l.get_escrow(id).unwrap().status, EscrowStatus::Pending);
    assert_eq!(l.lock_escrow(B, id, 5), Ok(true));
    // Only the borrower releases.
    assert_eq!(l.release_escrow(B, id), Err(EscrowError::Unauthorized));
    assert_eq!(l.get_escrow(id).unwrap().status, EscrowStatus::Locked);
    // Only the lender refunds.
    assert_eq!(l.refund_escrow(A, id), Err(EscrowError::Unauthorized));
    assert_eq!(l.get_escrow(id).unwrap().status, EscrowStatus::Locked);
}

#[test]
fn transition_legality_from_each_state() {
    let mut l = EscrowLedger::new();
    let id = l.create_escrow(A, B, valid_addr(), 1, 1, 0).unwrap();
    // Pending admits no release or refund.
    assert_eq!(
        l.release_escrow(A, id),
        Err(EscrowError::InvalidStateTransition {
            required: EscrowStatus::Locked,
            actual: EscrowStatus::Pending,
        })
    );
    assert_eq!(
        l.refund_escrow(B, id),
        Err(EscrowError::InvalidStateTransition {
            required: EscrowStatus::Locked,
            actual: EscrowStatus::Pending,
        })
    );
    assert_eq!(l.lock_escrow(B, id, 1), Ok(true));
    // Locked admits no second lock.
    assert_eq!(
        l.lock_escrow(B, id, 2),
        Err(EscrowError::InvalidStateTransition {
            required: EscrowStatus::Pending,
            actual: EscrowStatus::Locked,
        })
    );
    assert_eq!(l.release_escrow(A, id), Ok(true));
    // Released is terminal.
    assert_eq!(
        l.lock_escrow(B, id, 3),
        Err(EscrowError::InvalidStateTransition {
            required: EscrowStatus::Pending,
            actual: EscrowStatus::Released,
        })
    );
    assert_eq!(
        l.release_escrow(A, id),
        Err(EscrowError::InvalidStateTransition {
            required: EscrowStatus::Locked,
            actual: EscrowStatus::Released,
        })
    );
}

#[test]
fn party_queries_filter_and_sort() {
    let mut l = EscrowLedger::new();
    let id1 = l.create_escrow(A, B, valid_addr(), 1, 1, 0).unwrap();
    let id2 = l.create_escrow(C, B, valid_addr(), 2, 2, 0).unwrap();
    let id3 = l.create_escrow(A, C, valid_addr(), 3, 3, 0).unwrap();

    let a_escrows = l.get_borrower_escrows(A);
    assert_eq!(a_escrows.len(), 2);
    assert_eq!(a_escrows[0].id, id1);
    assert_eq!(a_escrows[1].id, id3);

    let b_lends = l.get_lender_escrows(B);
    assert_eq!(b_lends.len(), 2);
    assert_eq!(b_lends[0].id, id1);
    assert_eq!(b_lends[1].id, id2);

    let c_borrows = l.get_borrower_escrows(C);
    assert_eq!(c_borrows.len(), 1);
    assert_eq!(c_borrows[0].id, id2);

    assert_eq!(l.get_lender_escrows(PartyId(9)).len(), 0);
}

#[test]
fn health_reports_ok() {
    assert_eq!(escrow_ledger::health(), "OK");
}

#[test]
fn error_messages_are_descriptive() {
    assert_eq!(EscrowError::NotFound.message(), "record not found");
    assert_eq!(EscrowError::Unauthorized.message(), "caller is not authorized");
    assert_eq!(
        EscrowError::Validation(ValidationError::NonPositiveAmount).message(),
        "amount must be positive"
    );
    assert_eq!(
        EscrowError::InvalidStateTransition {
            required: EscrowStatus::Pending,
            actual: EscrowStatus::Locked,
        }
        .message(),
        "invalid state transition"
    );
}
