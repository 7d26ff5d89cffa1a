use vstd::prelude::*;
use crate::party::PartyId;

verus! {

/// Lifecycle states of an escrow agreement. Transitions are monotone along a
/// fixed directed graph: Pending -> Locked -> Released, Locked -> Refunded;
/// Released and Refunded are terminal.
#[derive(Clone, Copy, Debug, PartialEq, Eq, Structural)]
pub enum EscrowStatus {
    Pending,
    Locked,
    Released,
    Refunded,
}

/// Lifecycle states of a catalog agreement (the loan variant of the state
/// machine, collapsed to a single edge Active -> Repaid).
#[derive(Clone, Copy, Debug, PartialEq, Eq, Structural)]
pub enum AgreementStatus {
    Active,
    Repaid,
}

/// A two-party escrow agreement. The parties and amounts are immutable after
/// creation; only `status` and `release_time` ever change, and only along the
/// edges of the state machine.
#[derive(Clone, Debug)]
pub struct Escrow {
    pub id: u64,
    pub borrower: PartyId,
    pub lender: PartyId,
    pub btc_collateral_address: String,
    pub collateral_amount: u64,
    pub loan_amount: u64,
    pub created_at: u64,
    pub status: EscrowStatus,
    pub release_time: Option<u64>,
}

/// The mathematical value of an `Escrow`: the same fields with the address as
/// a sequence of characters.
#[verifier::ext_equal]
pub ghost struct EscrowModel {
    pub id: u64,
    pub borrower: PartyId,
    pub lender: PartyId,
    pub btc_collateral_address: Seq<char>,
    pub collateral_amount: u64,
    pub loan_amount: u64,
    pub created_at: u64,
    pub status: EscrowStatus,
    pub release_time: Option<u64>,
}

impl View for Escrow {
    type V = EscrowModel;

    open spec fn view(&self) -> EscrowModel {
        EscrowModel {
            id: self.id,
            borrower: self.borrower,
            lender: self.lender,
            btc_collateral_address: self.btc_collateral_address@,
            collateral_amount: self.collateral_amount,
            loan_amount: self.loan_amount,
            created_at: self.created_at,
            status: self.status,
            release_time: self.release_time,
        }
    }
}

/// A direct-storage loan record; immutable once created.
#[derive(Clone, Debug)]
pub struct Loan {
    pub id: u64,
    pub owner: PartyId,
    pub collateral_amount: u64,
    pub loan_amount: u64,
    pub created_at: u64,
}

impl View for Loan {
    type V = Loan;

    open spec fn view(&self) -> Loan {
        *self
    }
}

/// The full agreement payload the catalog keeps in the external
/// content-addressed store; locally it is only ever seen as bytes.
#[derive(Clone, Debug)]
pub struct AgreementRecord {
    pub id: u64,
    pub party_a: PartyId,
    pub party_b: PartyId,
    pub collateral_amount: u64,
    pub principal_amount: u64,
    pub created_at: u64,
    pub status: AgreementStatus,
}

impl View for AgreementRecord {
    type V = AgreementRecord;

    open spec fn view(&self) -> AgreementRecord {
        *self
    }
}

/// The lightweight local pointer record of the catalog: its `status` mirrors
/// the authoritative copy held under `external_hash` in the external store.
#[derive(Clone, Debug)]
pub struct RefRecord {
    pub id: u64,
    pub external_hash: Vec<u8>,
    pub party_a: PartyId,
    pub status: AgreementStatus,
}

/// The mathematical value of a `RefRecord`.
#[verifier::ext_equal]
pub ghost struct RefModel {
    pub id: u64,
    pub external_hash: Seq<u8>,
    pub party_a: PartyId,
    pub status: AgreementStatus,
}

impl View for RefRecord {
    type V = RefModel;

    open spec fn view(&self) -> RefModel {
        RefModel {
            id: self.id,
            external_hash: self.external_hash@,
            party_a: self.party_a,
            status: self.status,
        }
    }
}

/// A user profile: at most one linked external address per identity,
/// overwritten on each successful link, never appended.
#[derive(Clone, Debug)]
pub struct UserProfile {
    pub btc_address: Option<String>,
}

/// The mathematical value of a `UserProfile`.
#[verifier::ext_equal]
pub ghost struct ProfileModel {
    pub btc_address: Option<Seq<char>>,
}

impl View for UserProfile {
    type V = ProfileModel;

    open spec fn view(&self) -> ProfileModel {
        ProfileModel {
            btc_address: match self.btc_address {
                Some(ref a) => Some(a@),
                None => None,
            },
        }
    }
}

} // verus!
