use vstd::prelude::*;
use crate::codec::{
    decode_agreement, decode_ref, encode_agreement, encode_ref, spec_decode_agreement,
    spec_decode_ref, spec_encode_agreement,
};
use crate::errors::{CatalogError, TransferOutcome, ValidationError};
use crate::party::PartyId;
use crate::record::{AgreementRecord, AgreementStatus, RefModel, RefRecord};
use crate::store::{store_contents, StableStore};

verus! {

/// Every stored reference record decodes, is keyed by its own id, and no id
/// is above the counter.
pub open spec fn refs_wf(c: Map<u64, Seq<u8>>, next: u64) -> bool {
    forall|k: u64|
        #![trigger c.contains_key(k)]
        #![trigger spec_decode_ref(c[k])]
        c.contains_key(k) ==> {
            &&& spec_decode_ref(c[k]) is Some
            &&& spec_decode_ref(c[k]).unwrap().id == k
            &&& 1 <= k <= next
        }
}

/// The reference records a well-formed store holds.
pub open spec fn refs_of(c: Map<u64, Seq<u8>>) -> Map<u64, RefModel> {
    Map::new(|k: u64| c.contains_key(k), |k: u64| spec_decode_ref(c[k]).unwrap())
}

/// The error a failed transfer outcome surfaces.
pub open spec fn transfer_failure(outcome: TransferOutcome) -> CatalogError {
    match outcome {
        TransferOutcome::Completed(_) => CatalogError::ExternalCallFailed,
        TransferOutcome::Rejected(e) => CatalogError::ExternalServiceRejected(e),
        TransferOutcome::CallFailed => CatalogError::ExternalCallFailed,
    }
}

/// The catalog: the indirection variant of the ledger. The local store holds
/// only small reference records pointing into the external content-addressed
/// store, and creation additionally triggers an external value transfer. The
/// workflow around both external calls is a saga: each step here either
/// commits one local write or compensates a tentative one; the host performs
/// the external calls between the steps and hands their outcomes back in.
pub struct Catalog {
    refs: StableStore,
    next_id: u64,
}

impl Catalog {
    /// The byte contents of the reference store.
    pub closed spec fn contents(&self) -> Map<u64, Seq<u8>> {
        store_contents(self.refs)
    }

    /// The last reserved id.
    pub closed spec fn next(&self) -> u64 {
        self.next_id
    }

    /// The reference records the catalog holds, by id.
    pub open spec fn refs(&self) -> Map<u64, RefModel> {
        refs_of(self.contents())
    }

    /// The catalog's invariant.
    pub open spec fn wf(&self) -> bool {
        refs_wf(self.contents(), self.next())
    }

    /// The last reserved id; the next agreement gets the id above it.
    pub fn last_id(&self) -> (r: u64)
        ensures
            r == self.next(),
    {
        self.next_id
    }

    /// An empty catalog.
    pub fn new() -> (r: Catalog)
        ensures
            r.wf(),
            r.refs() =~= Map::empty(),
            r.next() == 0,
    {
        let r = Catalog { refs: StableStore::new(), next_id: 0 };
        proof {
            assert(r.refs() =~= Map::empty());
        }
        r
    }

    /// First saga step of creation: validates the amounts, reserves a fresh
    /// id strictly above every id ever reserved, and builds the full payload
    /// for the external content-addressed store. Nothing is committed
    /// locally: if storing the payload externally fails, the workflow aborts
    /// with no local trace, and the reserved id is simply never reused.
    pub fn begin_create(
        &mut self,
        caller: PartyId,
        party_b: PartyId,
        collateral_amount: u64,
        principal_amount: u64,
        now: u64,
    ) -> (r: Result<(u64, Vec<u8>), CatalogError>)
        requires
            old(self).wf(),
            old(self).next() < u64::MAX,
        ensures
            final(self).wf(),
            final(self).refs() == old(self).refs(),
            r is Ok <==> (collateral_amount > 0 && principal_amount > 0),
            match r {
                Ok((id, payload)) => {
                    &&& id == old(self).next() + 1
                    &&& final(self).next() == id
                    &&& !final(self).refs().contains_key(id)
                    &&& forall|k: u64| old(self).refs().contains_key(k) ==> k < id
                    &&& payload@ == spec_encode_agreement(
                        AgreementRecord {
                            id,
                            party_a: caller,
                            party_b,
                            collateral_amount,
                            principal_amount,
                            created_at: now,
                            status: AgreementStatus::Active,
                        },
                    )
                },
                Err(e) => {
                    &&& e == CatalogError::Validation(ValidationError::NonPositiveAmount)
                    &&& final(self).next() == old(self).next()
                },
            },
    {
        if collateral_amount == 0 || principal_amount == 0 {
            return Err(CatalogError::Validation(ValidationError::NonPositiveAmount));
        }
        let id = self.next_id + 1;
        self.next_id = id;
        let full = AgreementRecord {
            id,
            party_a: caller,
            party_b,
            collateral_amount,
            principal_amount,
            created_at: now,
            status: AgreementStatus::Active,
        };
        let payload = encode_agreement(&full);
        proof {
            if self.refs().contains_key(id) {
                assert(self.contents().contains_key(id));
                assert(false);
            }
            assert forall|k: u64| old(self).refs().contains_key(k) implies k < id by {
                assert(old(self).contents().contains_key(k));
            }
        }
        Ok((id, payload))
    }

    /// Second saga step of creation: after the external store returned the
    /// content hash, commits the local reference record, status Active. The
    /// id must be one just reserved and still unused; the host checks this
    /// before calling.
    pub fn record_reference(&mut self, caller: PartyId, id: u64, external_hash: Vec<u8>) -> (r:
        Result<(), CatalogError>)
        requires
            old(self).wf(),
            1 <= id <= old(self).next(),
            !old(self).refs().contains_key(id),
        ensures
            final(self).wf(),
            final(self).next() == old(self).next(),
            r is Ok,
            final(self).refs() == old(self).refs().insert(
                id,
                RefModel {
                    id,
                    external_hash: external_hash@,
                    party_a: caller,
                    status: AgreementStatus::Active,
                },
            ),
    {
        let rr = RefRecord { id, external_hash, party_a: caller, status: AgreementStatus::Active };
        proof {
            crate::codec::lemma_ref_round_trip(rr@);
        }
        let bytes = encode_ref(&rr);
        self.refs.insert(id, bytes);
        proof {
            assert forall|k: u64| #[trigger] self.contents().contains_key(k) implies {
                &&& spec_decode_ref(self.contents()[k]) is Some
                &&& spec_decode_ref(self.contents()[k]).unwrap().id == k
                &&& 1 <= k <= self.next()
            } by {
                if k != id {
                    assert(old(self).contents().contains_key(k));
                }
            }
            assert(self.refs() =~= old(self).refs().insert(id, rr@));
        }
        Ok(())
    }

    /// Last saga step of creation: consumes the outcome of the external value
    /// transfer. On success the workflow is complete and the reference
    /// stands. On a typed rejection or a failed call, the just-inserted
    /// reference is deleted again — the compensating action — so a
    /// subsequent lookup of the id reports NotFound; the id is never reused,
    /// since the counter is untouched.
    pub fn complete_transfer(&mut self, id: u64, outcome: TransferOutcome) -> (r: Result<
        u64,
        CatalogError,
    >)
        requires
            old(self).wf(),
        ensures
            final(self).wf(),
            final(self).next() == old(self).next(),
            r is Ok <==> outcome is Completed,
            match r {
                Ok(tid) => {
                    &&& outcome == TransferOutcome::Completed(tid)
                    &&& final(self).refs() == old(self).refs()
                },
                Err(e) => {
                    &&& e == transfer_failure(outcome)
                    &&& final(self).refs() == old(self).refs().remove(id)
                    &&& !final(self).refs().contains_key(id)
                },
            },
    {
        match outcome {
            TransferOutcome::Completed(tid) => Ok(tid),
            TransferOutcome::Rejected(e) => {
                self.compensate(id);
                Err(CatalogError::ExternalServiceRejected(e))
            },
            TransferOutcome::CallFailed => {
                self.compensate(id);
                Err(CatalogError::ExternalCallFailed)
            },
        }
    }

    /// The compensating delete: removes the reference by id. Safe to run even
    /// if a concurrent reader already observed the tentative reference.
    fn compensate(&mut self, id: u64)
        requires
            old(self).wf(),
        ensures
            final(self).wf(),
            final(self).next() == old(self).next(),
            final(self).refs() == old(self).refs().remove(id),
            !final(self).refs().contains_key(id),
    {
        self.refs.remove(id);
        proof {
            assert forall|k: u64| #[trigger] self.contents().contains_key(k) implies {
                &&& spec_decode_ref(self.contents()[k]) is Some
                &&& spec_decode_ref(self.contents()[k]).unwrap().id == k
                &&& 1 <= k <= self.next()
            } by {
                assert(old(self).contents().contains_key(k));
            }
            assert(self.refs() =~= old(self).refs().remove(id));
        }
    }

    /// Reads one reference record; catalog metadata reads never touch the
    /// external store. A reference that disappeared between an index scan
    /// and this lookup reports NotFound, never a fault.
    pub fn get_reference(&self, id: u64) -> (r: Result<RefRecord, CatalogError>)
        requires
            self.wf(),
        ensures
            match r {
                Ok(rr) => self.refs().contains_key(id) && rr@ == self.refs()[id],
                Err(e) => e == CatalogError::NotFound && !self.refs().contains_key(id),
            },
    {
        match self.refs.get(id) {
            None => Err(CatalogError::NotFound),
            Some(bytes) => Ok(decode_ref(bytes.as_slice()).unwrap()),
        }
    }

    /// First repayment step: re-reads the reference and checks that it
    /// exists, that the caller is the owning party, and that it is still
    /// Active, then hands back the stored content hash for the host to fetch
    /// the full payload. Reads nothing across a suspension point: the commit
    /// step re-validates everything.
    pub fn repay_prepare(&self, caller: PartyId, id: u64) -> (r: Result<Vec<u8>, CatalogError>)
        requires
            self.wf(),
        ensures
            match r {
                Ok(h) => {
                    &&& self.refs().contains_key(id)
                    &&& self.refs()[id].party_a == caller
                    &&& self.refs()[id].status == AgreementStatus::Active
                    &&& h@ == self.refs()[id].external_hash
                },
                Err(e) => e == (if !self.refs().contains_key(id) {
                    CatalogError::NotFound
                } else if self.refs()[id].party_a != caller {
                    CatalogError::Unauthorized
                } else {
                    CatalogError::InvalidStateTransition {
                        required: AgreementStatus::Active,
                        actual: self.refs()[id].status,
                    }
                }),
            },
    {
        let bytes = match self.refs.get(id) {
            None => {
                return Err(CatalogError::NotFound);
            },
            Some(b) => b,
        };
        let rr = decode_ref(bytes.as_slice()).unwrap();
        if rr.party_a != caller {
            return Err(CatalogError::Unauthorized);
        }
        if !matches!(rr.status, AgreementStatus::Active) {
            return Err(
                CatalogError::InvalidStateTransition {
                    required: AgreementStatus::Active,
                    actual: rr.status,
                },
            );
        }
        Ok(rr.external_hash)
    }

    /// Last repayment step: re-validates the reference from scratch (nothing
    /// is trusted across the suspension), then, if the host re-stored the
    /// flipped payload under a new hash, updates hash and status together in
    /// one write. If the re-store failed the reference is left unchanged,
    /// still pointing at the pre-repayment hash, so the operation is safely
    /// retryable.
    pub fn repay_commit(&mut self, caller: PartyId, id: u64, new_hash: Option<Vec<u8>>) -> (r:
        Result<bool, CatalogError>)
        requires
            old(self).wf(),
        ensures
            final(self).wf(),
            final(self).next() == old(self).next(),
            match r {
                Ok(b) => {
                    &&& b == true
                    &&& old(self).refs().contains_key(id)
                    &&& old(self).refs()[id].party_a == caller
                    &&& old(self).refs()[id].status == AgreementStatus::Active
                    &&& new_hash is Some
                    &&& final(self).refs() == old(self).refs().insert(
                        id,
                        RefModel {
                            id,
                            external_hash: new_hash.unwrap()@,
                            party_a: caller,
                            status: AgreementStatus::Repaid,
                        },
                    )
                },
                Err(e) => {
                    &&& final(self).refs() == old(self).refs()
                    &&& e == (if !old(self).refs().contains_key(id) {
                        CatalogError::NotFound
                    } else if old(self).refs()[id].party_a != caller {
                        CatalogError::Unauthorized
                    } else if old(self).refs()[id].status != AgreementStatus::Active {
                        CatalogError::InvalidStateTransition {
                            required: AgreementStatus::Active,
                            actual: old(self).refs()[id].status,
                        }
                    } else {
                        CatalogError::ExternalCallFailed
                    })
                },
            },
    {
        let bytes = match self.refs.get(id) {
            None => {
                return Err(CatalogError::NotFound);
            },
            Some(b) => b,
        };
        let rr = decode_ref(bytes.as_slice()).unwrap();
        if rr.party_a != caller {
            return Err(CatalogError::Unauthorized);
        }
        if !matches!(rr.status, AgreementStatus::Active) {
            return Err(
                CatalogError::InvalidStateTransition {
                    required: AgreementStatus::Active,
                    actual: rr.status,
                },
            );
        }
        let h = match new_hash {
            None => {
                return Err(CatalogError::ExternalCallFailed);
            },
            Some(h) => h,
        };
        let upd = RefRecord {
            id,
            external_hash: h,
            party_a: caller,
            status: AgreementStatus::Repaid,
        };
        proof {
            crate::codec::lemma_ref_round_trip(upd@);
        }
        let out = encode_ref(&upd);
        self.refs.insert(id, out);
        proof {
            assert forall|k: u64| #[trigger] self.contents().contains_key(k) implies {
                &&& spec_decode_ref(self.contents()[k]) is Some
                &&& spec_decode_ref(self.contents()[k]).unwrap().id == k
                &&& 1 <= k <= self.next()
            } by {
                if k != id {
                    assert(old(self).contents().contains_key(k));
                }
            }
            assert(self.refs() =~= old(self).refs().insert(id, upd@));
        }
        Ok(true)
    }
}

/// Flips a fetched full payload to Repaid: decodes it, checks it is still
/// Active, and re-encodes it with the new status for the external re-store.
/// A payload that does not decode is reported as corrupt, never trusted.
pub fn prepare_repaid_payload(payload: &[u8]) -> (r: Result<Vec<u8>, CatalogError>)
    ensures
        match r {
            Ok(v) => {
                &&& spec_decode_agreement(payload@) is Some
                &&& spec_decode_agreement(payload@).unwrap().status == AgreementStatus::Active
                &&& v@ == spec_encode_agreement(
                    AgreementRecord {
                        status: AgreementStatus::Repaid,
                        ..spec_decode_agreement(payload@).unwrap()
                    },
                )
            },
            Err(e) => e == (if spec_decode_agreement(payload@) is None {
                CatalogError::CorruptRecord
            } else {
                CatalogError::InvalidStateTransition {
                    required: AgreementStatus::Active,
                    actual: spec_decode_agreement(payload@).unwrap().status,
                }
            }),
        },
{
    let full = match decode_agreement(payload) {
        None => {
            return Err(CatalogError::CorruptRecord);
        },
        Some(a) => a,
    };
    if !matches!(full.status, AgreementStatus::Active) {
        return Err(
            CatalogError::InvalidStateTransition {
                required: AgreementStatus::Active,
                actual: full.status,
            },
        );
    }
    let mut upd = full;
    upd.status = AgreementStatus::Repaid;
    Ok(encode_agreement(&upd))
}

} // verus!
