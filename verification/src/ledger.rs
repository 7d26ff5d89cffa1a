use vstd::prelude::*;
use crate::address::{spec_addr_valid, spec_validate_addr, validate_btc_address};
use crate::codec::{
    decode_escrow, encode_escrow, escrow_wf, spec_decode_escrow, spec_encode_escrow,
};
use crate::errors::{EscrowError, ValidationError};
use crate::party::PartyId;
use crate::record::{Escrow, EscrowModel, EscrowStatus};
use crate::store::{store_contents, StableStore};

verus! {

/// The edges of the escrow state machine: Pending moves to Locked, Locked to
/// Released or Refunded; Released and Refunded are terminal.
pub open spec fn escrow_edge(from: EscrowStatus, to: EscrowStatus) -> bool {
    ||| (from == EscrowStatus::Pending && to == EscrowStatus::Locked)
    ||| (from == EscrowStatus::Locked && to == EscrowStatus::Released)
    ||| (from == EscrowStatus::Locked && to == EscrowStatus::Refunded)
}

/// The record created for fresh agreements: status Pending, no release time.
pub open spec fn fresh_escrow(
    id: u64,
    borrower: PartyId,
    lender: PartyId,
    addr: Seq<char>,
    collateral_amount: u64,
    loan_amount: u64,
    now: u64,
) -> EscrowModel {
    EscrowModel {
        id,
        borrower,
        lender,
        btc_collateral_address: addr,
        collateral_amount,
        loan_amount,
        created_at: now,
        status: EscrowStatus::Pending,
        release_time: None,
    }
}

/// The record after the lock edge: status Locked, release time set to now.
pub open spec fn locked_model(m: EscrowModel, now: u64) -> EscrowModel {
    EscrowModel { status: EscrowStatus::Locked, release_time: Some(now), ..m }
}

/// The record after the release edge.
pub open spec fn released_model(m: EscrowModel) -> EscrowModel {
    EscrowModel { status: EscrowStatus::Released, ..m }
}

/// The record after the refund edge.
pub open spec fn refunded_model(m: EscrowModel) -> EscrowModel {
    EscrowModel { status: EscrowStatus::Refunded, ..m }
}

/// Law: every successful transition follows an edge of the fixed graph: the
/// record's prior status is the edge's source state and its updated status
/// the target, and the two terminal states are the source of no edge at all.
pub proof fn lemma_transitions_follow_graph(
    recs: Map<u64, EscrowModel>,
    id: u64,
    caller: PartyId,
    now: u64,
)
    ensures
        spec_check_transition(recs, id, caller, true, EscrowStatus::Pending) is Ok ==> escrow_edge(
            recs[id].status,
            locked_model(recs[id], now).status,
        ),
        spec_check_transition(recs, id, caller, false, EscrowStatus::Locked) is Ok ==> escrow_edge(
            recs[id].status,
            released_model(recs[id]).status,
        ),
        spec_check_transition(recs, id, caller, true, EscrowStatus::Locked) is Ok ==> escrow_edge(
            recs[id].status,
            refunded_model(recs[id]).status,
        ),
        forall|to: EscrowStatus| !escrow_edge(EscrowStatus::Released, to),
        forall|to: EscrowStatus| !escrow_edge(EscrowStatus::Refunded, to),
{
}

/// The three checks every transition makes, in order: the record must exist
/// (missing id is reported before anything about the caller is revealed), the
/// caller must hold the role the edge authorizes, and the current status must
/// be the edge's source state.
pub open spec fn spec_check_transition(
    recs: Map<u64, EscrowModel>,
    id: u64,
    caller: PartyId,
    by_lender: bool,
    required: EscrowStatus,
) -> Result<(), EscrowError> {
    if !recs.contains_key(id) {
        Err(EscrowError::NotFound)
    } else if !(if by_lender {
        caller == recs[id].lender
    } else {
        caller == recs[id].borrower
    }) {
        Err(EscrowError::Unauthorized)
    } else if recs[id].status != required {
        Err(EscrowError::InvalidStateTransition { required, actual: recs[id].status })
    } else {
        Ok(())
    }
}

/// Every byte record in the store decodes to a well-formed record whose id is
/// its own key, and no key is above the id counter.
pub open spec fn contents_wf(c: Map<u64, Seq<u8>>, next: u64) -> bool {
    forall|k: u64|
        #![trigger c.contains_key(k)]
        #![trigger spec_decode_escrow(c[k])]
        c.contains_key(k) ==> {
            &&& spec_decode_escrow(c[k]) is Some
            &&& spec_decode_escrow(c[k]).unwrap().id == k
            &&& escrow_wf(spec_decode_escrow(c[k]).unwrap())
            &&& 1 <= k <= next
        }
}

/// The records a well-formed store holds, each decoded from its bytes.
pub open spec fn records_of(c: Map<u64, Seq<u8>>) -> Map<u64, EscrowModel> {
    Map::new(|k: u64| c.contains_key(k), |k: u64| spec_decode_escrow(c[k]).unwrap())
}

/// Inserting a well-formed record keyed by its own id keeps the store well
/// formed and inserts exactly that record into the decoded view.
proof fn lemma_insert_record(c: Map<u64, Seq<u8>>, next: u64, next2: u64, id: u64, m: EscrowModel)
    requires
        contents_wf(c, next),
        next <= next2,
        1 <= id <= next2,
        m.id == id,
        escrow_wf(m),
    ensures
        contents_wf(c.insert(id, spec_encode_escrow(m)), next2),
        records_of(c.insert(id, spec_encode_escrow(m))) == records_of(c).insert(id, m),
{
    crate::codec::lemma_escrow_round_trip(m);
    let c2 = c.insert(id, spec_encode_escrow(m));
    assert forall|k: u64| #[trigger] c2.contains_key(k) implies {
        &&& spec_decode_escrow(c2[k]) is Some
        &&& spec_decode_escrow(c2[k]).unwrap().id == k
        &&& escrow_wf(spec_decode_escrow(c2[k]).unwrap())
        &&& 1 <= k <= next2
    } by {
        if k != id {
            assert(c.contains_key(k));
        }
    }
    assert(records_of(c2) =~= records_of(c).insert(id, m));
}

/// The agreement ledger: owns the escrow records in the persistent keyed
/// store and the strictly increasing id counter, and enforces the state
/// machine and the role-based transition authorization.
pub struct EscrowLedger {
    escrows: StableStore,
    next_id: u64,
}

impl EscrowLedger {
    /// The byte contents of the underlying store.
    pub closed spec fn contents(&self) -> Map<u64, Seq<u8>> {
        store_contents(self.escrows)
    }

    /// The last issued id; fresh ids are strictly above it.
    pub closed spec fn next(&self) -> u64 {
        self.next_id
    }

    /// The records the ledger holds, by id.
    pub open spec fn records(&self) -> Map<u64, EscrowModel> {
        records_of(self.contents())
    }

    /// The ledger's invariant: every stored byte record decodes to a
    /// well-formed record keyed by its own id, and no id is above the
    /// counter.
    pub open spec fn wf(&self) -> bool {
        contents_wf(self.contents(), self.next())
    }

    /// The last issued id; the next agreement gets the id above it.
    pub fn last_id(&self) -> (r: u64)
        ensures
            r == self.next(),
    {
        self.next_id
    }

    /// An empty ledger: no records, ids start above zero.
    pub fn new() -> (r: EscrowLedger)
        ensures
            r.wf(),
            r.records() =~= Map::empty(),
            r.next() == 0,
    {
        let r = EscrowLedger { escrows: StableStore::new(), next_id: 0 };
        proof {
            assert(r.records() =~= Map::empty());
        }
        r
    }

    /// Creates a new agreement after validating that both amounts are
    /// strictly positive and the collateral address passes the validator.
    /// A fresh id strictly above every previously issued id is assigned, the
    /// record starts Pending, and exactly one record is inserted.
    pub fn create_escrow(
        &mut self,
        caller: PartyId,
        lender: PartyId,
        btc_collateral_address: String,
        collateral_amount: u64,
        loan_amount: u64,
        now: u64,
    ) -> (r: Result<u64, EscrowError>)
        requires
            old(self).wf(),
            old(self).next() < u64::MAX,
        ensures
            final(self).wf(),
            r is Ok <==> (collateral_amount > 0 && loan_amount > 0 && spec_addr_valid(
                btc_collateral_address@,
            )),
            match r {
                Ok(id) => {
                    &&& id == old(self).next() + 1
                    &&& final(self).next() == id
                    &&& !old(self).records().contains_key(id)
                    &&& forall|k: u64| old(self).records().contains_key(k) ==> k < id
                    &&& final(self).records() == old(self).records().insert(
                        id,
                        fresh_escrow(
                            id,
                            caller,
                            lender,
                            btc_collateral_address@,
                            collateral_amount,
                            loan_amount,
                            now,
                        ),
                    )
                },
                Err(e) => {
                    &&& final(self).records() == old(self).records()
                    &&& final(self).next() == old(self).next()
                    &&& e == (if collateral_amount == 0 || loan_amount == 0 {
                        EscrowError::Validation(ValidationError::NonPositiveAmount)
                    } else {
                        EscrowError::Validation(spec_validate_addr(btc_collateral_address@)->Err_0)
                    })
                },
            },
    {
        if collateral_amount == 0 || loan_amount == 0 {
            return Err(EscrowError::Validation(ValidationError::NonPositiveAmount));
        }
        match validate_btc_address(btc_collateral_address.as_str()) {
            Err(v) => {
                return Err(EscrowError::Validation(v));
            },
            Ok(_) => {},
        }
        let id = self.next_id + 1;
        self.next_id = id;
        let e = Escrow {
            id,
            borrower: caller,
            lender,
            btc_collateral_address,
            collateral_amount,
            loan_amount,
            created_at: now,
            status: EscrowStatus::Pending,
            release_time: None,
        };
        proof {
            crate::address::lemma_valid_addr_ascii(e.btc_collateral_address@);
        }
        let bytes = encode_escrow(&e);
        self.escrows.insert(id, bytes);
        proof {
            lemma_insert_record(old(self).contents(), (id - 1) as u64, id, id, e@);
            assert forall|k: u64| old(self).records().contains_key(k) implies k < id by {
                assert(old(self).contents().contains_key(k));
            }
            assert(e@ == fresh_escrow(
                id,
                caller,
                lender,
                e.btc_collateral_address@,
                collateral_amount,
                loan_amount,
                now,
            ));
        }
        Ok(id)
    }

    /// Advances Pending to Locked and sets the release time; only the lender
    /// may lock, and only from Pending. Every failure leaves the ledger
    /// unchanged.
    pub fn lock_escrow(&mut self, caller: PartyId, escrow_id: u64, now: u64) -> (r: Result<
        bool,
        EscrowError,
    >)
        requires
            old(self).wf(),
        ensures
            final(self).wf(),
            final(self).next() == old(self).next(),
            match r {
                Ok(b) => {
                    &&& b == true
                    &&& spec_check_transition(
                        old(self).records(),
                        escrow_id,
                        caller,
                        true,
                        EscrowStatus::Pending,
                    ) is Ok
                    &&& final(self).records() == old(self).records().insert(
                        escrow_id,
                        locked_model(old(self).records()[escrow_id], now),
                    )
                },
                Err(e) => {
                    &&& Err::<(), EscrowError>(e) == spec_check_transition(
                        old(self).records(),
                        escrow_id,
                        caller,
                        true,
                        EscrowStatus::Pending,
                    )
                    &&& final(self).records() == old(self).records()
                },
            },
    {
        let bytes = match self.escrows.get(escrow_id) {
            None => {
                return Err(EscrowError::NotFound);
            },
            Some(b) => b,
        };
        let rec = decode_escrow(bytes.as_slice()).unwrap();
        if caller != rec.lender {
            return Err(EscrowError::Unauthorized);
        }
        if !matches!(rec.status, EscrowStatus::Pending) {
            return Err(
                EscrowError::InvalidStateTransition {
                    required: EscrowStatus::Pending,
                    actual: rec.status,
                },
            );
        }
        let mut upd = rec;
        upd.status = EscrowStatus::Locked;
        upd.release_time = Some(now);
        proof {
            assert(upd@ == locked_model(old(self).records()[escrow_id], now));
            crate::codec::lemma_escrow_round_trip(upd@);
        }
        let out = encode_escrow(&upd);
        self.escrows.insert(escrow_id, out);
        proof {
            assert(self.records() =~= old(self).records().insert(escrow_id, upd@));
        }
        Ok(true)
    }

    /// Advances Locked to Released; only the borrower may release, and only
    /// from Locked. Every failure leaves the ledger unchanged.
    pub fn release_escrow(&mut self, caller: PartyId, escrow_id: u64) -> (r: Result<
        bool,
        EscrowError,
    >)
        requires
            old(self).wf(),
        ensures
            final(self).wf(),
            final(self).next() == old(self).next(),
            match r {
                Ok(b) => {
                    &&& b == true
                    &&& spec_check_transition(
                        old(self).records(),
                        escrow_id,
                        caller,
                        false,
                        EscrowStatus::Locked,
                    ) is Ok
                    &&& final(self).records() == old(self).records().insert(
                        escrow_id,
                        released_model(old(self).records()[escrow_id]),
                    )
                },
                Err(e) => {
                    &&& Err::<(), EscrowError>(e) == spec_check_transition(
                        old(self).records(),
                        escrow_id,
                        caller,
                        false,
                        EscrowStatus::Locked,
                    )
                    &&& final(self).records() == old(self).records()
                },
            },
    {
        let bytes = match self.escrows.get(escrow_id) {
            None => {
                return Err(EscrowError::NotFound);
            },
            Some(b) => b,
        };
        let rec = decode_escrow(bytes.as_slice()).unwrap();
        if caller != rec.borrower {
            return Err(EscrowError::Unauthorized);
        }
        if !matches!(rec.status, EscrowStatus::Locked) {
            return Err(
                EscrowError::InvalidStateTransition {
                    required: EscrowStatus::Locked,
                    actual: rec.status,
                },
            );
        }
        let mut upd = rec;
        upd.status = EscrowStatus::Released;
        proof {
            assert(upd@ == released_model(old(self).records()[escrow_id]));
            crate::codec::lemma_escrow_round_trip(upd@);
        }
        let out = encode_escrow(&upd);
        self.escrows.insert(escrow_id, out);
        proof {
            assert(self.records() =~= old(self).records().insert(escrow_id, upd@));
        }
        Ok(true)
    }

    /// Advances Locked to Refunded; only the lender may refund, and only from
    /// Locked. Every failure leaves the ledger unchanged.
    pub fn refund_escrow(&mut self, caller: PartyId, escrow_id: u64) -> (r: Result<
        bool,
        EscrowError,
    >)
        requires
            old(self).wf(),
        ensures
            final(self).wf(),
            final(self).next() == old(self).next(),
            match r {
                Ok(b) => {
                    &&& b == true
                    &&& spec_check_transition(
                        old(self).records(),
                        escrow_id,
                        caller,
                        true,
                        EscrowStatus::Locked,
                    ) is Ok
                    &&& final(self).records() == old(self).records().insert(
                        escrow_id,
                        refunded_model(old(self).records()[escrow_id]),
                    )
                },
                Err(e) => {
                    &&& Err::<(), EscrowError>(e) == spec_check_transition(
                        old(self).records(),
                        escrow_id,
                        caller,
                        true,
                        EscrowStatus::Locked,
                    )
                    &&& final(self).records() == old(self).records()
                },
            },
    {
        let bytes = match self.escrows.get(escrow_id) {
            None => {
                return Err(EscrowError::NotFound);
            },
            Some(b) => b,
        };
        let rec = decode_escrow(bytes.as_slice()).unwrap();
        if caller != rec.lender {
            return Err(EscrowError::Unauthorized);
        }
        if !matches!(rec.status, EscrowStatus::Locked) {
            return Err(
                EscrowError::InvalidStateTransition {
                    required: EscrowStatus::Locked,
                    actual: rec.status,
                },
            );
        }
        let mut upd = rec;
        upd.status = EscrowStatus::Refunded;
        proof {
            assert(upd@ == refunded_model(old(self).records()[escrow_id]));
            crate::codec::lemma_escrow_round_trip(upd@);
        }
        let out = encode_escrow(&upd);
        self.escrows.insert(escrow_id, out);
        proof {
            assert(self.records() =~= old(self).records().insert(escrow_id, upd@));
        }
        Ok(true)
    }

    /// Looks up one record by id; a missing id reports NotFound.
    pub fn get_escrow(&self, escrow_id: u64) -> (r: Result<Escrow, EscrowError>)
        requires
            self.wf(),
        ensures
            match r {
                Ok(e) => self.records().contains_key(escrow_id) && e@ == self.records()[escrow_id],
                Err(e) => e == EscrowError::NotFound && !self.records().contains_key(escrow_id),
            },
    {
        match self.escrows.get(escrow_id) {
            None => Err(EscrowError::NotFound),
            Some(bytes) => Ok(decode_escrow(bytes.as_slice()).unwrap()),
        }
    }

    /// All records whose borrower is the caller, in ascending id order.
    pub fn get_borrower_escrows(&self, caller: PartyId) -> (r: Vec<Escrow>)
        requires
            self.wf(),
        ensures
            forall|i: int|
                0 <= i < r@.len() ==> {
                    &&& self.records().contains_key((#[trigger] r@[i])@.id)
                    &&& r@[i]@ == self.records()[r@[i]@.id]
                    &&& r@[i]@.borrower == caller
                },
            forall|k: u64|
                self.records().contains_key(k) && self.records()[k].borrower == caller
                    ==> exists|i: int| 0 <= i < r@.len() && (#[trigger] r@[i])@.id == k,
            forall|i: int, j: int| 0 <= i < j < r@.len() ==> r@[i]@.id < r@[j]@.id,
    {
        let entries = self.escrows.entries();
        let mut out: Vec<Escrow> = Vec::new();
        let mut i: usize = 0;
        while i < entries.len()
            invariant
                0 <= i <= entries@.len(),
                self.wf(),
                forall|idx: int|
                    0 <= idx < entries@.len() ==> self.contents().contains_key(
                        (#[trigger] entries@[idx]).0,
                    ) && self.contents()[entries@[idx].0] == entries@[idx].1@,
                forall|k: u64|
                    self.contents().contains_key(k) ==> exists|idx: int|
                        0 <= idx < entries@.len() && entries@[idx].0 == k,
                forall|a: int, b: int|
                    0 <= a < b < entries@.len() ==> entries@[a].0 < entries@[b].0,
                forall|a: int|
                    0 <= a < out@.len() ==> {
                        &&& self.records().contains_key((#[trigger] out@[a])@.id)
                        &&& out@[a]@ == self.records()[out@[a]@.id]
                        &&& out@[a]@.borrower == caller
                    },
                forall|idx: int|
                    0 <= idx < i && self.records()[(#[trigger] entries@[idx]).0].borrower == caller
                        ==> exists|a: int| 0 <= a < out@.len() && (#[trigger] out@[a])@.id
                        == entries@[idx].0,
                forall|a: int, j: int|
                    0 <= a < out@.len() && i <= j < entries@.len() ==> (#[trigger] out@[a])@.id < (
                    #[trigger] entries@[j]).0,
                forall|a: int, b: int| 0 <= a < b < out@.len() ==> out@[a]@.id < out@[b]@.id,
            decreases entries@.len() - i,
        {
            let rec = decode_escrow(entries[i].1.as_slice()).unwrap();
            let ghost recv = rec@;
            let ghost iold = i as int;
            let ghost prev = out@;
            proof {
                assert(recv == self.records()[entries@[iold].0]);
                assert(recv.id == entries@[iold].0);
            }
            let matched = rec.borrower == caller;
            if matched {
                out.push(rec);
            }
            i = i + 1;
            proof {
                if matched {
                    assert(out@.len() == prev.len() + 1);
                    assert(out@[prev.len() as int]@ == recv);
                    assert(forall|a: int| 0 <= a < prev.len() ==> #[trigger] out@[a] == prev[a]);
                } else {
                    assert(out@ == prev);
                }
                assert forall|idx: int|
                    0 <= idx < i && self.records()[(#[trigger] entries@[idx]).0].borrower == caller
                        implies exists|a: int| 0 <= a < out@.len() && (#[trigger] out@[a])@.id
                    == entries@[idx].0 by {
                    if idx < iold {
                        assert(exists|a: int|
                            0 <= a < prev.len() && (#[trigger] prev[a])@.id == entries@[idx].0);
                        let a0 = choose|a: int|
                            0 <= a < prev.len() && (#[trigger] prev[a])@.id == entries@[idx].0;
                        assert(out@[a0] == prev[a0]);
                        assert(out@[a0]@.id == entries@[idx].0);
                    } else {
                        assert(idx == iold);
                        assert(self.records()[entries@[idx].0] == recv);
                        assert(matched);
                        assert(out@[prev.len() as int]@.id == entries@[idx].0);
                    }
                }
            }
        }
        out
    }

    /// All records whose lender is the caller, in ascending id order.
    pub fn get_lender_escrows(&self, caller: PartyId) -> (r: Vec<Escrow>)
        requires
            self.wf(),
        ensures
            forall|i: int|
                0 <= i < r@.len() ==> {
                    &&& self.records().contains_key((#[trigger] r@[i])@.id)
                    &&& r@[i]@ == self.records()[r@[i]@.id]
                    &&& r@[i]@.lender == caller
                },
            forall|k: u64|
                self.records().contains_key(k) && self.records()[k].lender == caller
                    ==> exists|i: int| 0 <= i < r@.len() && (#[trigger] r@[i])@.id == k,
            forall|i: int, j: int| 0 <= i < j < r@.len() ==> r@[i]@.id < r@[j]@.id,
    {
        let entries = self.escrows.entries();
        let mut out: Vec<Escrow> = Vec::new();
        let mut i: usize = 0;
        while i < entries.len()
            invariant
                0 <= i <= entries@.len(),
                self.wf(),
                forall|idx: int|
                    0 <= idx < entries@.len() ==> self.contents().contains_key(
                        (#[trigger] entries@[idx]).0,
                    ) && self.contents()[entries@[idx].0] == entries@[idx].1@,
                forall|k: u64|
                    self.contents().contains_key(k) ==> exists|idx: int|
                        0 <= idx < entries@.len() && entries@[idx].0 == k,
                forall|a: int, b: int|
                    0 <= a < b < entries@.len() ==> entries@[a].0 < entries@[b].0,
                forall|a: int|
                    0 <= a < out@.len() ==> {
                        &&& self.records().contains_key((#[trigger] out@[a])@.id)
                        &&& out@[a]@ == self.records()[out@[a]@.id]
                        &&& out@[a]@.lender == caller
                    },
                forall|idx: int|
                    0 <= idx < i && self.records()[(#[trigger] entries@[idx]).0].lender == caller
                        ==> exists|a: int| 0 <= a < out@.len() && (#[trigger] out@[a])@.id
                        == entries@[idx].0,
                forall|a: int, j: int|
                    0 <= a < out@.len() && i <= j < entries@.len() ==> (#[trigger] out@[a])@.id < (
                    #[trigger] entries@[j]).0,
                forall|a: int, b: int| 0 <= a < b < out@.len() ==> out@[a]@.id < out@[b]@.id,
            decreases entries@.len() - i,
        {
            let rec = decode_escrow(entries[i].1.as_slice()).unwrap();
            let ghost recv = rec@;
            let ghost iold = i as int;
            let ghost prev = out@;
            proof {
                assert(recv == self.records()[entries@[iold].0]);
                assert(recv.id == entries@[iold].0);
            }
            let matched = rec.lender == caller;
            if matched {
                out.push(rec);
            }
            i = i + 1;
            proof {
                if matched {
                    assert(out@.len() == prev.len() + 1);
                    assert(out@[prev.len() as int]@ == recv);
                    assert(forall|a: int| 0 <= a < prev.len() ==> #[trigger] out@[a] == prev[a]);
                } else {
                    assert(out@ == prev);
                }
                assert forall|idx: int|
                    0 <= idx < i && self.records()[(#[trigger] entries@[idx]).0].lender == caller
                        implies exists|a: int| 0 <= a < out@.len() && (#[trigger] out@[a])@.id
                    == entries@[idx].0 by {
                    if idx < iold {
                        assert(exists|a: int|
                            0 <= a < prev.len() && (#[trigger] prev[a])@.id == entries@[idx].0);
                        let a0 = choose|a: int|
                            0 <= a < prev.len() && (#[trigger] prev[a])@.id == entries@[idx].0;
                        assert(out@[a0] == prev[a0]);
                        assert(out@[a0]@.id == entries@[idx].0);
                    } else {
                        assert(idx == iold);
                        assert(self.records()[entries@[idx].0] == recv);
                        assert(matched);
                        assert(out@[prev.len() as int]@.id == entries@[idx].0);
                    }
                }
            }
        }
        out
    }
}

} // verus!
