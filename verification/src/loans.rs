use vstd::prelude::*;
use crate::address::{spec_addr_valid, spec_validate_addr, validate_btc_address};
use crate::codec::{
    decode_ids, decode_loan, decode_profile, encode_ids, encode_loan, encode_profile, profile_wf,
    spec_decode_ids, spec_decode_loan, spec_decode_profile, spec_encode_ids, spec_encode_loan,
};
use crate::errors::{EscrowError, ProbeOutcome, ValidationError};
use crate::party::PartyId;
use crate::record::{Loan, ProfileModel, UserProfile};
use crate::store::{store_contents, StableStore};

verus! {

/// The loan stored under a key, for a store whose records all decode.
pub open spec fn loan_of(lc: Map<u64, Seq<u8>>, k: u64) -> Loan {
    spec_decode_loan(lc[k]).unwrap()
}

/// The id list stored under a party, for a store whose records all decode.
pub open spec fn ids_of(ic: Map<u64, Seq<u8>>, p: u64) -> Seq<u64> {
    spec_decode_ids(ic[p]).unwrap()
}

/// Every stored loan decodes, is keyed by its own id, and no id is above the
/// counter.
pub open spec fn loans_wf(lc: Map<u64, Seq<u8>>, next: u64) -> bool {
    forall|k: u64|
        #![trigger lc.contains_key(k)]
        #![trigger spec_decode_loan(lc[k])]
        lc.contains_key(k) ==> {
            &&& spec_decode_loan(lc[k]) is Some
            &&& loan_of(lc, k).id == k
            &&& 1 <= k <= next
        }
}

/// Every stored profile decodes and is well formed.
pub open spec fn users_wf(uc: Map<u64, Seq<u8>>) -> bool {
    forall|p: u64|
        #![trigger uc.contains_key(p)]
        uc.contains_key(p) ==> spec_decode_profile(uc[p]) is Some && profile_wf(
            spec_decode_profile(uc[p]).unwrap(),
        )
}

/// The index is sound: every listed id names an existing loan owned by that
/// party, and each party's list is strictly increasing (an ordered set).
pub open spec fn index_wf(ic: Map<u64, Seq<u8>>, lc: Map<u64, Seq<u8>>) -> bool {
    forall|p: u64|
        #![trigger ic.contains_key(p)]
        ic.contains_key(p) ==> {
            &&& spec_decode_ids(ic[p]) is Some
            &&& forall|j: int|
                0 <= j < ids_of(ic, p).len() ==> lc.contains_key(#[trigger] ids_of(ic, p)[j])
                    && loan_of(lc, ids_of(ic, p)[j]).owner == PartyId(p)
            &&& forall|j1: int, j2: int|
                0 <= j1 < j2 < ids_of(ic, p).len() ==> ids_of(ic, p)[j1] < ids_of(ic, p)[j2]
        }
}

/// The index is complete: every loan appears in its owner's list. The index
/// is derived from the loans, never an independent source of truth.
pub open spec fn index_complete(ic: Map<u64, Seq<u8>>, lc: Map<u64, Seq<u8>>) -> bool {
    forall|k: u64|
        #![trigger lc.contains_key(k)]
        lc.contains_key(k) ==> {
            &&& ic.contains_key(loan_of(lc, k).owner.0)
            &&& exists|j: int|
                0 <= j < ids_of(ic, loan_of(lc, k).owner.0).len() && ids_of(
                    ic,
                    loan_of(lc, k).owner.0,
                )[j] == k
        }
}

/// The direct-storage loan ledger: loans by id, user profiles and the
/// per-party index of loan ids, all in persistent keyed stores.
pub struct LoanLedger {
    loans: StableStore,
    users: StableStore,
    user_loans: StableStore,
    next_id: u64,
}

impl LoanLedger {
    /// The byte contents of the loan store.
    pub closed spec fn loans_contents(&self) -> Map<u64, Seq<u8>> {
        store_contents(self.loans)
    }

    /// The byte contents of the profile store.
    pub closed spec fn users_contents(&self) -> Map<u64, Seq<u8>> {
        store_contents(self.users)
    }

    /// The byte contents of the index store.
    pub closed spec fn index_contents(&self) -> Map<u64, Seq<u8>> {
        store_contents(self.user_loans)
    }

    /// The last issued id.
    pub closed spec fn next(&self) -> u64 {
        self.next_id
    }

    /// The loans the ledger holds, by id.
    pub open spec fn loans(&self) -> Map<u64, Loan> {
        Map::new(
            |k: u64| self.loans_contents().contains_key(k),
            |k: u64| loan_of(self.loans_contents(), k),
        )
    }

    /// The user profiles, by the numeric handle of the owning identity.
    pub open spec fn profiles(&self) -> Map<u64, ProfileModel> {
        Map::new(
            |p: u64| self.users_contents().contains_key(p),
            |p: u64| spec_decode_profile(self.users_contents()[p]).unwrap(),
        )
    }

    /// The per-party ordered list of loan ids.
    pub open spec fn index(&self) -> Map<u64, Seq<u64>> {
        Map::new(
            |p: u64| self.index_contents().contains_key(p),
            |p: u64| ids_of(self.index_contents(), p),
        )
    }

    /// The id list of one party, empty when the party has none.
    pub open spec fn party_ids(&self, p: u64) -> Seq<u64> {
        if self.index_contents().contains_key(p) {
            ids_of(self.index_contents(), p)
        } else {
            Seq::empty()
        }
    }

    /// The ledger's invariant: all three stores decode, loans are keyed by
    /// their own ids below the counter, and the index is sound and complete
    /// for the loans.
    pub open spec fn wf(&self) -> bool {
        &&& loans_wf(self.loans_contents(), self.next())
        &&& users_wf(self.users_contents())
        &&& index_wf(self.index_contents(), self.loans_contents())
        &&& index_complete(self.index_contents(), self.loans_contents())
    }

    /// The last issued id; the next loan gets the id above it.
    pub fn last_id(&self) -> (r: u64)
        ensures
            r == self.next(),
    {
        self.next_id
    }

    /// An empty ledger.
    pub fn new() -> (r: LoanLedger)
        ensures
            r.wf(),
            r.loans() =~= Map::empty(),
            r.profiles() =~= Map::empty(),
            r.index() =~= Map::empty(),
            r.next() == 0,
    {
        let r = LoanLedger {
            loans: StableStore::new(),
            users: StableStore::new(),
            user_loans: StableStore::new(),
            next_id: 0,
        };
        proof {
            assert(r.loans() =~= Map::empty());
            assert(r.profiles() =~= Map::empty());
            assert(r.index() =~= Map::empty());
        }
        r
    }

    /// Creates a loan after validating that both amounts are strictly
    /// positive: assigns a fresh id strictly above every previously issued
    /// id, inserts the record, and appends the id to the caller's index list.
    pub fn create_loan(&mut self, caller: PartyId, collateral: u64, loan: u64, now: u64) -> (r:
        Result<Loan, EscrowError>)
        requires
            old(self).wf(),
            old(self).next() < u64::MAX,
        ensures
            final(self).wf(),
            r is Ok <==> (collateral > 0 && loan > 0),
            match r {
                Ok(l) => {
                    &&& l == (Loan {
                        id: (old(self).next() + 1) as u64,
                        owner: caller,
                        collateral_amount: collateral,
                        loan_amount: loan,
                        created_at: now,
                    })
                    &&& final(self).next() == l.id
                    &&& !old(self).loans().contains_key(l.id)
                    &&& forall|k: u64| old(self).loans().contains_key(k) ==> k < l.id
                    &&& final(self).loans() == old(self).loans().insert(l.id, l)
                    &&& final(self).index() == old(self).index().insert(
                        caller.0,
                        old(self).party_ids(caller.0).push(l.id),
                    )
                    &&& final(self).profiles() == old(self).profiles()
                },
                Err(e) => {
                    &&& e == EscrowError::Validation(ValidationError::NonPositiveAmount)
                    &&& final(self).loans() == old(self).loans()
                    &&& final(self).index() == old(self).index()
                    &&& final(self).profiles() == old(self).profiles()
                    &&& final(self).next() == old(self).next()
                },
            },
    {
        if collateral == 0 || loan == 0 {
            return Err(EscrowError::Validation(ValidationError::NonPositiveAmount));
        }
        let id = self.next_id + 1;
        self.next_id = id;
        let new_loan = Loan {
            id,
            owner: caller,
            collateral_amount: collateral,
            loan_amount: loan,
            created_at: now,
        };
        proof {
            crate::codec::lemma_loan_round_trip(new_loan);
            if self.loans_contents().contains_key(id) {
                assert(false);
            }
        }
        let lb = encode_loan(&new_loan);
        self.loans.insert(id, lb);
        let mut ids: Vec<u64> = match self.user_loans.get(caller.0) {
            Some(bytes) => decode_ids(bytes.as_slice()).unwrap(),
            None => Vec::new(),
        };
        ids.push(id);
        proof {
            crate::codec::lemma_ids_round_trip(ids@);
        }
        let ib = encode_ids(&ids);
        self.user_loans.insert(caller.0, ib);
        proof {
            self.lemma_create_reestablish(*old(self), caller, new_loan, ids@);
        }
        Ok(new_loan)
    }

    /// The bookkeeping behind `create_loan`: inserting a fresh loan and
    /// appending its id to the owner's list preserves the invariant and
    /// changes the two decoded views exactly by that loan and that id.
    proof fn lemma_create_reestablish(&self, pre: LoanLedger, caller: PartyId, l: Loan, ids: Seq<
        u64,
    >)
        requires
            pre.wf(),
            pre.next() < u64::MAX,
            l.id == pre.next() + 1,
            l.owner == caller,
            ids == pre.party_ids(caller.0).push(l.id),
            self.next() == l.id,
            self.users_contents() == pre.users_contents(),
            self.loans_contents() == pre.loans_contents().insert(l.id, spec_encode_loan(l)),
            self.index_contents() == pre.index_contents().insert(caller.0, spec_encode_ids(ids)),
        ensures
            self.wf(),
            self.loans() == pre.loans().insert(l.id, l),
            self.index() == pre.index().insert(caller.0, ids),
            self.profiles() == pre.profiles(),
    {
        let id = l.id;
        let lc1 = pre.loans_contents();
        let lc2 = self.loans_contents();
        let ic1 = pre.index_contents();
        let ic2 = self.index_contents();
        crate::codec::lemma_loan_round_trip(l);
        crate::codec::lemma_ids_round_trip(ids);
        assert forall|k: u64| #[trigger] lc2.contains_key(k) implies {
            &&& spec_decode_loan(lc2[k]) is Some
            &&& loan_of(lc2, k).id == k
            &&& 1 <= k <= self.next()
        } by {
            if k != id {
                assert(lc1.contains_key(k));
            }
        }
        assert forall|p: u64| #[trigger] ic2.contains_key(p) implies {
            &&& spec_decode_ids(ic2[p]) is Some
            &&& forall|j: int|
                0 <= j < ids_of(ic2, p).len() ==> lc2.contains_key(#[trigger] ids_of(ic2, p)[j])
                    && loan_of(lc2, ids_of(ic2, p)[j]).owner == PartyId(p)
            &&& forall|j1: int, j2: int|
                0 <= j1 < j2 < ids_of(ic2, p).len() ==> ids_of(ic2, p)[j1] < ids_of(ic2, p)[j2]
        } by {
            if p == caller.0 {
                assert(ids_of(ic2, p) == ids);
                let prevlist = pre.party_ids(p);
                assert forall|j: int| 0 <= j < ids.len() implies lc2.contains_key(
                    #[trigger] ids[j],
                ) && loan_of(lc2, ids[j]).owner == PartyId(p) by {
                    if j < prevlist.len() {
                        assert(ic1.contains_key(p));
                        assert(ids[j] == ids_of(ic1, p)[j]);
                        assert(lc1.contains_key(ids[j]));
                        assert(ids[j] != id);
                    } else {
                        assert(ids[j] == id);
                    }
                }
                assert forall|j1: int, j2: int| 0 <= j1 < j2 < ids.len() implies ids[j1]
                    < ids[j2] by {
                    if j2 < prevlist.len() {
                        assert(ic1.contains_key(p));
                    } else {
                        assert(ids[j2] == id);
                        if j1 < prevlist.len() {
                            assert(ic1.contains_key(p));
                            assert(lc1.contains_key(ids[j1]));
                            assert(ids[j1] <= pre.next());
                        }
                    }
                }
            } else {
                assert(ic1.contains_key(p));
                assert(ids_of(ic2, p) == ids_of(ic1, p));
                assert forall|j: int| 0 <= j < ids_of(ic2, p).len() implies lc2.contains_key(
                    #[trigger] ids_of(ic2, p)[j],
                ) && loan_of(lc2, ids_of(ic2, p)[j]).owner == PartyId(p) by {
                    assert(lc1.contains_key(ids_of(ic1, p)[j]));
                    assert(ids_of(ic1, p)[j] <= pre.next());
                }
            }
        }
        assert forall|k: u64| #[trigger] lc2.contains_key(k) implies {
            &&& ic2.contains_key(loan_of(lc2, k).owner.0)
            &&& exists|j: int|
                0 <= j < ids_of(ic2, loan_of(lc2, k).owner.0).len() && ids_of(
                    ic2,
                    loan_of(lc2, k).owner.0,
                )[j] == k
        } by {
            let prevlist = pre.party_ids(caller.0);
            if k == id {
                assert(loan_of(lc2, k).owner.0 == caller.0);
                assert(ids_of(ic2, caller.0) == ids);
                assert(ids[prevlist.len() as int] == k);
            } else {
                assert(lc1.contains_key(k));
                let q = loan_of(lc1, k).owner.0;
                assert(loan_of(lc2, k) == loan_of(lc1, k));
                let j0 = choose|j: int|
                    0 <= j < ids_of(ic1, q).len() && ids_of(ic1, q)[j] == k;
                if q == caller.0 {
                    assert(ids_of(ic2, q) == ids);
                    assert(ids[j0] == prevlist[j0]);
                    assert(ids_of(ic2, q)[j0] == k);
                } else {
                    assert(ids_of(ic2, q) == ids_of(ic1, q));
                }
            }
        }
        assert(self.loans() =~= pre.loans().insert(id, l));
        assert(self.index() =~= pre.index().insert(caller.0, ids));
        assert(self.profiles() =~= pre.profiles());
    }

    /// Records the caller's external address after the format validator has
    /// accepted it and the external liveness query has confirmed nonzero
    /// prior activity. The format is re-checked here, before the probe result
    /// is consulted; a failed probe and zero activity both reject the bind,
    /// and nothing is stored on any failure.
    pub fn link_btc_address(&mut self, caller: PartyId, address: String, probe: ProbeOutcome) -> (
        r: Result<(), EscrowError>)
        requires
            old(self).wf(),
        ensures
            final(self).wf(),
            final(self).loans() == old(self).loans(),
            final(self).index() == old(self).index(),
            final(self).next() == old(self).next(),
            r is Ok <==> (spec_addr_valid(address@) && probe is Activity && probe->Activity_0
                > 0),
            match r {
                Ok(_) => final(self).profiles() == old(self).profiles().insert(
                    caller.0,
                    ProfileModel { btc_address: Some(address@) },
                ),
                Err(e) => {
                    &&& final(self).profiles() == old(self).profiles()
                    &&& e == (if spec_validate_addr(address@) is Err {
                        EscrowError::Validation(spec_validate_addr(address@)->Err_0)
                    } else if probe == ProbeOutcome::Unreachable {
                        EscrowError::ExternalCallFailed
                    } else {
                        EscrowError::Validation(ValidationError::NoActivity)
                    })
                },
            },
    {
        match validate_btc_address(address.as_str()) {
            Err(v) => {
                return Err(EscrowError::Validation(v));
            },
            Ok(_) => {},
        }
        match probe {
            ProbeOutcome::Unreachable => {
                return Err(EscrowError::ExternalCallFailed);
            },
            ProbeOutcome::Activity(n) => {
                if n == 0 {
                    return Err(EscrowError::Validation(ValidationError::NoActivity));
                }
            },
        }
        let profile = UserProfile { btc_address: Some(address) };
        proof {
            crate::address::lemma_valid_addr_ascii(profile.btc_address.unwrap()@);
            crate::codec::lemma_profile_round_trip(profile@);
        }
        let pb = encode_profile(&profile);
        self.users.insert(caller.0, pb);
        proof {
            assert forall|p: u64| #[trigger] self.users_contents().contains_key(p) implies
                spec_decode_profile(self.users_contents()[p]) is Some && profile_wf(
                spec_decode_profile(self.users_contents()[p]).unwrap(),
            ) by {
                if p != caller.0 {
                    assert(old(self).users_contents().contains_key(p));
                }
            }
            assert(self.profiles() =~= old(self).profiles().insert(caller.0, profile@));
        }
        Ok(())
    }

    /// The caller's linked address, if one was ever recorded.
    pub fn get_btc_address(&self, caller: PartyId) -> (r: Option<String>)
        requires
            self.wf(),
        ensures
            match r {
                Some(a) => self.profiles().contains_key(caller.0) && self.profiles()[
                    caller.0
                ].btc_address == Some(a@),
                None => !self.profiles().contains_key(caller.0) || self.profiles()[
                    caller.0
                ].btc_address is None,
            },
    {
        match self.users.get(caller.0) {
            None => None,
            Some(bytes) => {
                let profile = decode_profile(bytes.as_slice()).unwrap();
                match profile.btc_address {
                    Some(a) => Some(a),
                    None => None,
                }
            },
        }
    }

    /// All loans owned by the caller, in ascending id order.
    pub fn get_loans(&self, caller: PartyId) -> (r: Vec<Loan>)
        requires
            self.wf(),
        ensures
            forall|i: int|
                0 <= i < r@.len() ==> {
                    &&& self.loans().contains_key((#[trigger] r@[i]).id)
                    &&& r@[i] == self.loans()[r@[i].id]
                    &&& r@[i].owner == caller
                },
            forall|k: u64|
                self.loans().contains_key(k) && self.loans()[k].owner == caller ==> exists|i: int|
                    0 <= i < r@.len() && (#[trigger] r@[i]).id == k,
            forall|i: int, j: int| 0 <= i < j < r@.len() ==> r@[i].id < r@[j].id,
    {
        let entries = self.loans.entries();
        let mut out: Vec<Loan> = Vec::new();
        let mut i: usize = 0;
        while i < entries.len()
            invariant
                0 <= i <= entries@.len(),
                self.wf(),
                forall|idx: int|
                    0 <= idx < entries@.len() ==> self.loans_contents().contains_key(
                        (#[trigger] entries@[idx]).0,
                    ) && self.loans_contents()[entries@[idx].0] == entries@[idx].1@,
                forall|k: u64|
                    self.loans_contents().contains_key(k) ==> exists|idx: int|
                        0 <= idx < entries@.len() && entries@[idx].0 == k,
                forall|a: int, b: int|
                    0 <= a < b < entries@.len() ==> entries@[a].0 < entries@[b].0,
                forall|a: int|
                    0 <= a < out@.len() ==> {
                        &&& self.loans().contains_key((#[trigger] out@[a]).id)
                        &&& out@[a] == self.loans()[out@[a].id]
                        &&& out@[a].owner == caller
                    },
                forall|idx: int|
                    0 <= idx < i && self.loans()[(#[trigger] entries@[idx]).0].owner == caller
                        ==> exists|a: int| 0 <= a < out@.len() && (#[trigger] out@[a]).id
                        == entries@[idx].0,
                forall|a: int, j: int|
                    0 <= a < out@.len() && i <= j < entries@.len() ==> (#[trigger] out@[a]).id < (
                    #[trigger] entries@[j]).0,
                forall|a: int, b: int| 0 <= a < b < out@.len() ==> out@[a].id < out@[b].id,
            decreases entries@.len() - i,
        {
            let rec = decode_loan(entries[i].1.as_slice()).unwrap();
            let ghost recv = rec;
            let ghost iold = i as int;
            let ghost prev = out@;
            proof {
                assert(recv == self.loans()[entries@[iold].0]);
                assert(recv.id == entries@[iold].0);
            }
            let matched = rec.owner == caller;
            if matched {
                out.push(rec);
            }
            i = i + 1;
            proof {
                if matched {
                    assert(out@.len() == prev.len() + 1);
                    assert(out@[prev.len() as int] == recv);
                    assert(forall|a: int| 0 <= a < prev.len() ==> #[trigger] out@[a] == prev[a]);
                } else {
                    assert(out@ == prev);
                }
                assert forall|idx: int|
                    0 <= idx < i && self.loans()[(#[trigger] entries@[idx]).0].owner == caller
                        implies exists|a: int| 0 <= a < out@.len() && (#[trigger] out@[a]).id
                    == entries@[idx].0 by {
                    if idx < iold {
                        assert(exists|a: int|
                            0 <= a < prev.len() && (#[trigger] prev[a]).id == entries@[idx].0);
                        let a0 = choose|a: int|
                            0 <= a < prev.len() && (#[trigger] prev[a]).id == entries@[idx].0;
                        assert(out@[a0] == prev[a0]);
                        assert(out@[a0].id == entries@[idx].0);
                    } else {
                        assert(idx == iold);
                        assert(self.loans()[entries@[idx].0] == recv);
                        assert(matched);
                        assert(out@[prev.len() as int].id == entries@[idx].0);
                    }
                }
            }
        }
        out
    }
}

} // verus!
