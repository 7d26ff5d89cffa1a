use escrow_ledger::codec::{decode_agreement, decode_escrow, decode_ids, decode_loan,
    decode_profile, decode_ref, encode_agreement, encode_escrow, encode_ids, encode_loan,
    encode_profile, encode_ref};
use escrow_ledger::party::PartyId;
use escrow_ledger::record::{AgreementRecord, AgreementStatus, Escrow, EscrowStatus, Loan,
    RefRecord, UserProfile};

fn sample_escrow(status: EscrowStatus, release_time: Option<u64>) -> Escrow {
    Escrow {
        id: 42,
        borrower: PartyId(7),
        lender: PartyId(8),
        btc_collateral_address: String::from("1BvBMSEYstWetqTFn5Au4m4GFg7xJaNVN2"),
        collateral_amount: 123456789,
        loan_amount: 55555,
        created_at: 1700000000,
        status,
        release_time,
    }
}

fn escrow_eq(a: &Escrow, b: &Escrow) -> bool {
    a.id == b.id && a.borrower == b.borrower && a.lender == b.lender
        && a.btc_collateral_address == b.btc_collateral_address
        && a.collateral_amount == b.collateral_amount && a.loan_amount == b.loan_amount
        && a.created_at == b.created_at && a.status == b.status
        && a.release_time == b.release_time
}

#[test]
fn escrow_round_trips_without_release_time() {
    let e = sample_escrow(EscrowStatus::Pending, None);
    let bytes = encode_escrow(&e);
    let back = decode_escrow(bytes.as_slice()).unwrap();
    assert!(escrow_eq(&e, &back));
}

#[test]
fn escrow_round_trips_with_release_time() {
    let e = sample_escrow(EscrowStatus::Locked, Some(1700000123));
    let bytes = encode_escrow(&e);
    let back = decode_escrow(bytes.as_slice()).unwrap();
    assert!(escrow_eq(&e, &back));
    let r = sample_escrow(EscrowStatus::Released, Some(1));
    assert!(escrow_eq(&r, &decode_escrow(encode_escrow(&r).as_slice()).unwrap()));
    let f = sample_escrow(EscrowStatus::Refunded, Some(2));
    assert!(escrow_eq(&f, &decode_escrow(encode_escrow(&f).as_slice()).unwrap()));
}

#[test]
fn escrow_decode_rejects_malformed_bytes() {
    assert!(decode_escrow(&[]).is_none());
    assert!(decode_escrow(&[0u8; 57]).is_none());
    let e = sample_escrow(EscrowStatus::Pending, None);
    let mut bytes = encode_escrow(&e);
    bytes[48] = 9; // no such status
    assert!(decode_escrow(bytes.as_slice()).is_none());
    let mut bytes = encode_escrow(&e);
    bytes[49] = 7; // no such presence tag
    assert!(decode_escrow(bytes.as_slice()).is_none());
    let mut bytes = encode_escrow(&e);
    bytes[60] = 200; // address byte outside ASCII
    assert!(decode_escrow(bytes.as_slice()).is_none());
}

#[test]
fn escrow_encoding_is_exact() {
    let e = sample_escrow(EscrowStatus::Locked, Some(3));
    let bytes = encode_escrow(&e);
    assert_eq!(bytes.len(), 58 + e.btc_collateral_address.len());
    assert_eq!(&bytes[0..8], &42u64.to_le_bytes());
    assert_eq!(bytes[48], 1); // Locked
    assert_eq!(bytes[49], 1); // release time present
    assert_eq!(&bytes[50..58], &3u64.to_le_bytes());
    assert_eq!(&bytes[58..], e.btc_collateral_address.as_bytes());
}

#[test]
fn loan_round_trips() {
    let l = Loan {
        id: 9,
        owner: PartyId(4),
        collateral_amount: 11,
        loan_amount: 22,
        created_at: 33,
    };
    let back = decode_loan(encode_loan(&l).as_slice()).unwrap();
    assert_eq!(back.id, 9);
    assert_eq!(back.owner, PartyId(4));
    assert_eq!(back.collateral_amount, 11);
    assert_eq!(back.loan_amount, 22);
    assert_eq!(back.created_at, 33);
    assert!(decode_loan(&[0u8; 39]).is_none());
    assert!(decode_loan(&[0u8; 41]).is_none());
}

#[test]
fn agreement_round_trips() {
    let a = AgreementRecord {
        id: 5,
        party_a: PartyId(1),
        party_b: PartyId(2),
        collateral_amount: 100,
        principal_amount: 50,
        created_at: 77,
        status: AgreementStatus::Repaid,
    };
    let bytes = encode_agreement(&a);
    assert_eq!(bytes.len(), 49);
    let back = decode_agreement(bytes.as_slice()).unwrap();
    assert_eq!(back.id, 5);
    assert_eq!(back.status, AgreementStatus::Repaid);
    assert_eq!(back.principal_amount, 50);
    let mut bad = bytes.clone();
    bad[48] = 3;
    assert!(decode_agreement(bad.as_slice()).is_none());
}

#[test]
fn reference_round_trips() {
    let r = RefRecord {
        id: 6,
        external_hash: vec![0xde, 0xad, 0xbe, 0xef],
        party_a: PartyId(3),
        status: AgreementStatus::Active,
    };
    let back = decode_ref(encode_ref(&r).as_slice()).unwrap();
    assert_eq!(back.id, 6);
    assert_eq!(back.external_hash, vec![0xde, 0xad, 0xbe, 0xef]);
    assert_eq!(back.party_a, PartyId(3));
    assert_eq!(back.status, AgreementStatus::Active);
    assert!(decode_ref(&[0u8; 16]).is_none());
}

#[test]
fn profile_round_trips() {
    let p = UserProfile { btc_address: Some(String::from("1BvBMSEYstWetqTFn5Au4m4GFg7xJaNVN2")) };
    let back = decode_profile(encode_profile(&p).as_slice()).unwrap();
    assert_eq!(back.btc_address.as_deref(), Some("1BvBMSEYstWetqTFn5Au4m4GFg7xJaNVN2"));
    let none = UserProfile { btc_address: None };
    let back = decode_profile(encode_profile(&none).as_slice()).unwrap();
    assert!(back.btc_address.is_none());
    assert!(decode_profile(&[]).is_none());
    assert!(decode_profile(&[0, 1]).is_none());
    assert!(decode_profile(&[2]).is_none());
}

#[test]
fn id_list_round_trips() {
    let ids: Vec<u64> = vec![1, 5, 1000000007, u64::MAX];
    let back = decode_ids(encode_ids(&ids).as_slice()).unwrap();
    assert_eq!(back, ids);
    let empty: Vec<u64> = Vec::new();
    assert_eq!(decode_ids(encode_ids(&empty).as_slice()).unwrap(), empty);
    assert!(decode_ids(&[0u8; 7]).is_none());
    assert!(decode_ids(&[0u8; 9]).is_none());
}
