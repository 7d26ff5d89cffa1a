use escrow_ledger::catalog::{prepare_repaid_payload, Catalog};
use escrow_ledger::codec::decode_agreement;
use escrow_ledger::errors::{CatalogError, TransferError, TransferOutcome, ValidationError};
use escrow_ledger::party::PartyId;
use escrow_ledger::record::AgreementStatus;

const A: PartyId = PartyId(1);
const B: PartyId = PartyId(2);

fn fake_hash(seed: u8) -> Vec<u8> {
    vec![seed; 32]
}

#[test]
fn begin_create_reserves_ids_and_commits_nothing() {
    let mut c = Catalog::new();
    let (id, payload) = c.begin_create(A, B, 100, 50, 7).unwrap();
    assert_eq!(id, 1);
    assert!(matches!(c.get_reference(1), Err(CatalogError::NotFound)));
    let full = decode_agreement(payload.as_slice()).unwrap();
    assert_eq!(full.id, 1);
    assert_eq!(full.party_a, A);
    assert_eq!(full.party_b, B);
    assert_eq!(full.collateral_amount, 100);
    assert_eq!(full.principal_amount, 50);
    assert_eq!(full.created_at, 7);
    assert_eq!(full.status, AgreementStatus::Active);
}

#[test]
fn begin_create_validates_amounts() {
    let mut c = Catalog::new();
    assert!(matches!(
        c.begin_create(A, B, 0, 50, 0),
        Err(CatalogError::Validation(ValidationError::NonPositiveAmount))
    ));
    assert!(matches!(
        c.begin_create(A, B, 50, 0, 0),
        Err(CatalogError::Validation(ValidationError::NonPositiveAmount))
    ));
}

#[test]
fn successful_workflow_commits_reference() {
    let mut c = Catalog::new();
    let (id, _payload) = c.begin_create(A, B, 100, 50, 7).unwrap();
    c.record_reference(A, id, fake_hash(1)).unwrap();
    assert_eq!(c.complete_transfer(id, TransferOutcome::Completed(777)), Ok(777));
    let r = c.get_reference(id).unwrap();
    assert_eq!(r.id, id);
    assert_eq!(r.party_a, A);
    assert_eq!(r.status, AgreementStatus::Active);
    assert_eq!(r.external_hash, fake_hash(1));
}

#[test]
fn failed_transfer_compensates_and_never_reuses_the_id() {
    let mut c = Catalog::new();
    let (id, _payload) = c.begin_create(A, B, 100, 50, 7).unwrap();
    c.record_reference(A, id, fake_hash(1)).unwrap();
    assert_eq!(
        c.complete_transfer(id, TransferOutcome::Rejected(TransferError::InsufficientFunds)),
        Err(CatalogError::ExternalServiceRejected(TransferError::InsufficientFunds))
    );
    // The reference was compensated away.
    assert!(matches!(c.get_reference(id), Err(CatalogError::NotFound)));
    // The id is never issued again.
    let (id2, _) = c.begin_create(A, B, 1, 1, 8).unwrap();
    assert_eq!(id2, id + 1);
}

#[test]
fn failed_call_compensates_too() {
    let mut c = Catalog::new();
    let (id, _payload) = c.begin_create(A, B, 2, 2, 0).unwrap();
    c.record_reference(A, id, fake_hash(9)).unwrap();
    assert_eq!(
        c.complete_transfer(id, TransferOutcome::CallFailed),
        Err(CatalogError::ExternalCallFailed)
    );
    assert!(matches!(c.get_reference(id), Err(CatalogError::NotFound)));
}

#[test]
fn repayment_workflow() {
    let mut c = Catalog::new();
    let (id, payload) = c.begin_create(A, B, 100, 50, 7).unwrap();
    c.record_reference(A, id, fake_hash(1)).unwrap();
    c.complete_transfer(id, TransferOutcome::Completed(1)).unwrap();

    // Wrong caller cannot even read the hash for repayment.
    assert!(matches!(c.repay_prepare(B, id), Err(CatalogError::Unauthorized)));

    let h = c.repay_prepare(A, id).unwrap();
    assert_eq!(h, fake_hash(1));
    // The host fetches the payload by that hash; flipping it is local logic.
    let repaid = prepare_repaid_payload(payload.as_slice()).unwrap();
    let full = decode_agreement(repaid.as_slice()).unwrap();
    assert_eq!(full.status, AgreementStatus::Repaid);
    assert_eq!(full.id, id);

    // Re-store failed: reference unchanged, retryable.
    assert_eq!(c.repay_commit(A, id, None), Err(CatalogError::ExternalCallFailed));
    assert_eq!(c.get_reference(id).unwrap().external_hash, fake_hash(1));
    assert_eq!(c.get_reference(id).unwrap().status, AgreementStatus::Active);

    // Re-store succeeded: hash and status flip together in one write.
    assert_eq!(c.repay_commit(A, id, Some(fake_hash(2))), Ok(true));
    let r = c.get_reference(id).unwrap();
    assert_eq!(r.status, AgreementStatus::Repaid);
    assert_eq!(r.external_hash, fake_hash(2));

    // A second repayment observes the already-repaid state.
    assert_eq!(
        c.repay_commit(A, id, Some(fake_hash(3))),
        Err(CatalogError::InvalidStateTransition {
            required: AgreementStatus::Active,
            actual: AgreementStatus::Repaid,
        })
    );
}

#[test]
fn repay_of_unknown_id_is_not_found() {
    let mut c = Catalog::new();
    assert!(matches!(c.repay_prepare(A, 5), Err(CatalogError::NotFound)));
    assert!(matches!(c.repay_commit(A, 5, Some(fake_hash(0))), Err(CatalogError::NotFound)));
}

#[test]
fn corrupt_payload_is_rejected_not_trusted() {
    assert!(matches!(prepare_repaid_payload(&[1, 2, 3]), Err(CatalogError::CorruptRecord)));
    let mut c = Catalog::new();
    let (_id, payload) = c.begin_create(A, B, 1, 1, 0).unwrap();
    let repaid = prepare_repaid_payload(payload.as_slice()).unwrap();
    // An already-repaid payload cannot be flipped again.
    assert!(matches!(
        prepare_repaid_payload(repaid.as_slice()),
        Err(CatalogError::InvalidStateTransition { .. })
    ));
}
