use vstd::prelude::*;
use vstd::bytes::{
    u64_to_le_bytes, u64_from_le_bytes, spec_u64_to_le_bytes, spec_u64_from_le_bytes,
    lemma_auto_spec_u64_to_from_le_bytes,
};
use vstd::slice::{slice_subrange, slice_to_vec};
use vstd::string::StrSliceExecFns;
use vstd::utf8::is_ascii_chars;
use crate::party::PartyId;
use crate::record::{
    AgreementRecord, AgreementStatus, Escrow, EscrowModel, EscrowStatus, Loan, ProfileModel,
    RefModel, RefRecord, UserProfile,
};

verus! {

/// The characters of an ASCII string, one byte each.
pub open spec fn ascii_bytes_of(s: Seq<char>) -> Seq<u8> {
    s.map(|i: int, c: char| c as u8)
}

/// The characters spelled by a sequence of bytes below 0x80.
pub open spec fn chars_of_bytes(b: Seq<u8>) -> Seq<char> {
    b.map(|i: int, x: u8| x as char)
}

/// Every byte is below 0x80.
pub open spec fn bytes_all_ascii(b: Seq<u8>) -> bool {
    forall|i: int| 0 <= i < b.len() ==> b[i] < 128
}

/// The byte under which a status is stored.
pub open spec fn status_tag(s: EscrowStatus) -> u8 {
    match s {
        EscrowStatus::Pending => 0,
        EscrowStatus::Locked => 1,
        EscrowStatus::Released => 2,
        EscrowStatus::Refunded => 3,
    }
}

/// The status a byte stands for, if any.
pub open spec fn tag_status(b: u8) -> Option<EscrowStatus> {
    if b == 0 {
        Some(EscrowStatus::Pending)
    } else if b == 1 {
        Some(EscrowStatus::Locked)
    } else if b == 2 {
        Some(EscrowStatus::Released)
    } else if b == 3 {
        Some(EscrowStatus::Refunded)
    } else {
        None
    }
}

/// A record is well formed when its address is ASCII; every address the
/// validator accepts is, since both alphabets are.
pub open spec fn escrow_wf(m: EscrowModel) -> bool {
    is_ascii_chars(m.btc_collateral_address)
}

/// The eight bytes at `off`, read as a little-endian number.
pub open spec fn rd_u64(b: Seq<u8>, off: int) -> u64 {
    spec_u64_from_le_bytes(b.subrange(off, off + 8))
}

/// The byte representation of an escrow record: six numeric fields of eight
/// bytes each, one status byte, a presence byte and eight bytes for the
/// release time, then the address, one byte per character.
pub open spec fn spec_encode_escrow(m: EscrowModel) -> Seq<u8> {
    spec_u64_to_le_bytes(m.id) + spec_u64_to_le_bytes(m.borrower.0) + spec_u64_to_le_bytes(
        m.lender.0,
    ) + spec_u64_to_le_bytes(m.collateral_amount) + spec_u64_to_le_bytes(m.loan_amount)
        + spec_u64_to_le_bytes(m.created_at) + seq![status_tag(m.status)] + (match m.release_time {
        Some(t) => seq![1u8] + spec_u64_to_le_bytes(t),
        None => seq![0u8] + spec_u64_to_le_bytes(0),
    }) + ascii_bytes_of(m.btc_collateral_address)
}

/// The record a byte string stands for, if it is a well-formed encoding.
pub open spec fn spec_decode_escrow(b: Seq<u8>) -> Option<EscrowModel> {
    if b.len() < 58 {
        None
    } else if tag_status(b[48]) is None {
        None
    } else if !(b[49] == 0 || b[49] == 1) {
        None
    } else if b[49] == 0 && rd_u64(b, 50) != 0 {
        None
    } else if !bytes_all_ascii(b.subrange(58, b.len() as int)) {
        None
    } else {
        Some(
            EscrowModel {
                id: rd_u64(b, 0),
                borrower: PartyId(rd_u64(b, 8)),
                lender: PartyId(rd_u64(b, 16)),
                collateral_amount: rd_u64(b, 24),
                loan_amount: rd_u64(b, 32),
                created_at: rd_u64(b, 40),
                status: tag_status(b[48]).unwrap(),
                release_time: if b[49] == 1 {
                    Some(rd_u64(b, 50))
                } else {
                    None
                },
                btc_collateral_address: chars_of_bytes(b.subrange(58, b.len() as int)),
            },
        )
    }
}

/// Appends the little-endian bytes of a number.
fn put_u64(out: &mut Vec<u8>, x: u64)
    ensures
        final(out)@ == old(out)@ + spec_u64_to_le_bytes(x),
{
    let mut b = u64_to_le_bytes(x);
    out.append(&mut b);
}

/// Reads the eight bytes at `off` as a little-endian number.
fn read_u64(b: &[u8], off: usize) -> (x: u64)
    requires
        off + 8 <= b@.len(),
    ensures
        x == rd_u64(b@, off as int),
{
    let n = b.len();
    let s = slice_subrange(b, off, off + 8);
    u64_from_le_bytes(s)
}

/// Relies on String::from_utf8: bytes below 0x80 are valid UTF-8 and decode
/// to exactly the characters with those code points.
#[verifier::external_body]
fn string_from_ascii(bytes: Vec<u8>) -> (r: String)
    requires
        bytes_all_ascii(bytes@),
    ensures
        r@ == chars_of_bytes(bytes@),
{
    match String::from_utf8(bytes) {
        Ok(s) => s,
        Err(_) => String::new(),
    }
}

/// Serializes an escrow record to its bounded byte representation.
pub fn encode_escrow(e: &Escrow) -> (r: Vec<u8>)
    requires
        escrow_wf(e@),
    ensures
        r@ == spec_encode_escrow(e@),
{
    let mut out: Vec<u8> = Vec::new();
    put_u64(&mut out, e.id);
    put_u64(&mut out, e.borrower.0);
    put_u64(&mut out, e.lender.0);
    put_u64(&mut out, e.collateral_amount);
    put_u64(&mut out, e.loan_amount);
    put_u64(&mut out, e.created_at);
    let tag: u8 = match e.status {
        EscrowStatus::Pending => 0,
        EscrowStatus::Locked => 1,
        EscrowStatus::Released => 2,
        EscrowStatus::Refunded => 3,
    };
    out.push(tag);
    match e.release_time {
        Some(t) => {
            out.push(1);
            put_u64(&mut out, t);
        },
        None => {
            out.push(0);
            put_u64(&mut out, 0);
        },
    }
    let s = e.btc_collateral_address.as_str();
    let mut ab = s.as_bytes_vec();
    proof {
        broadcast use vstd::string::is_ascii_spec_bytes;

        assert(vstd::string::is_ascii(s));
        assert(ab@ =~= ascii_bytes_of(e.btc_collateral_address@));
    }
    out.append(&mut ab);
    proof {
        assert(out@ =~= spec_encode_escrow(e@));
    }
    out
}

/// Deserializes an escrow record from bytes; malformed input yields `None`.
pub fn decode_escrow(b: &[u8]) -> (r: Option<Escrow>)
    ensures
        match r {
            Some(e) => spec_decode_escrow(b@) == Some(e@),
            None => spec_decode_escrow(b@) is None,
        },
{
    let n = b.len();
    if n < 58 {
        return None;
    }
    let status = match b[48] {
        0 => EscrowStatus::Pending,
        1 => EscrowStatus::Locked,
        2 => EscrowStatus::Released,
        3 => EscrowStatus::Refunded,
        _ => {
            return None;
        },
    };
    let rt_tag = b[49];
    if !(rt_tag == 0 || rt_tag == 1) {
        return None;
    }
    let rt_val = read_u64(b, 50);
    if rt_tag == 0 && rt_val != 0 {
        return None;
    }
    let mut i: usize = 58;
    while i < n
        invariant
            58 <= i <= n,
            n == b@.len(),
            forall|j: int| 58 <= j < i ==> b@[j] < 128,
        decreases n - i,
    {
        if b[i] >= 128 {
            proof {
                assert(b@.subrange(58, n as int)[i - 58] == b@[i as int]);
                assert(!bytes_all_ascii(b@.subrange(58, n as int)));
            }
            return None;
        }
        i = i + 1;
    }
    proof {
        assert forall|j: int| 0 <= j < n - 58 implies b@.subrange(58, n as int)[j] < 128 by {
            assert(b@.subrange(58, n as int)[j] == b@[j + 58]);
        }
    }
    let ab = slice_to_vec(slice_subrange(b, 58, n));
    let address = string_from_ascii(ab);
    let e = Escrow {
        id: read_u64(b, 0),
        borrower: PartyId(read_u64(b, 8)),
        lender: PartyId(read_u64(b, 16)),
        btc_collateral_address: address,
        collateral_amount: read_u64(b, 24),
        loan_amount: read_u64(b, 32),
        created_at: read_u64(b, 40),
        status,
        release_time: if rt_tag == 1 {
            Some(rt_val)
        } else {
            None
        },
    };
    proof {
        let d = spec_decode_escrow(b@);
        assert(d is Some);
        assert(d.unwrap() =~= e@);
    }
    Some(e)
}

/// Law: serialization round-trips exactly. Decoding the encoding of any well
/// formed escrow record yields that record, bit for bit.
pub proof fn lemma_escrow_round_trip(m: EscrowModel)
    requires
        escrow_wf(m),
    ensures
        spec_decode_escrow(spec_encode_escrow(m)) == Some(m),
{
    lemma_auto_spec_u64_to_from_le_bytes();
    let e = spec_encode_escrow(m);
    let rt = match m.release_time {
        Some(t) => seq![1u8] + spec_u64_to_le_bytes(t),
        None => seq![0u8] + spec_u64_to_le_bytes(0),
    };
    assert(rt.len() == 9);
    let addr = ascii_bytes_of(m.btc_collateral_address);
    assert(e.len() == 58 + addr.len());
    assert(e.subrange(0, 8) =~= spec_u64_to_le_bytes(m.id));
    assert(e.subrange(8, 16) =~= spec_u64_to_le_bytes(m.borrower.0));
    assert(e.subrange(16, 24) =~= spec_u64_to_le_bytes(m.lender.0));
    assert(e.subrange(24, 32) =~= spec_u64_to_le_bytes(m.collateral_amount));
    assert(e.subrange(32, 40) =~= spec_u64_to_le_bytes(m.loan_amount));
    assert(e.subrange(40, 48) =~= spec_u64_to_le_bytes(m.created_at));
    assert(e[48] == status_tag(m.status));
    assert(tag_status(status_tag(m.status)) == Some(m.status));
    match m.release_time {
        Some(t) => {
            assert(e[49] == 1);
            assert(e.subrange(50, 58) =~= spec_u64_to_le_bytes(t));
        },
        None => {
            assert(e[49] == 0);
            assert(e.subrange(50, 58) =~= spec_u64_to_le_bytes(0));
        },
    }
    assert(e.subrange(58, e.len() as int) =~= addr);
    assert forall|i: int| 0 <= i < addr.len() implies addr[i] < 128 by {
        assert(is_ascii_chars(m.btc_collateral_address));
        assert(m.btc_collateral_address[i] <= '\u{7f}');
    }
    assert(chars_of_bytes(addr) =~= m.btc_collateral_address);
    assert(spec_decode_escrow(e) is Some);
    assert(spec_decode_escrow(e).unwrap() =~= m);
}

/// The byte representation of a loan record: five numeric fields of eight
/// bytes each.
pub open spec fn spec_encode_loan(m: Loan) -> Seq<u8> {
    spec_u64_to_le_bytes(m.id) + spec_u64_to_le_bytes(m.owner.0) + spec_u64_to_le_bytes(
        m.collateral_amount,
    ) + spec_u64_to_le_bytes(m.loan_amount) + spec_u64_to_le_bytes(m.created_at)
}

/// The loan record a byte string stands for, if it is a well-formed encoding.
pub open spec fn spec_decode_loan(b: Seq<u8>) -> Option<Loan> {
    if b.len() != 40 {
        None
    } else {
        Some(
            Loan {
                id: rd_u64(b, 0),
                owner: PartyId(rd_u64(b, 8)),
                collateral_amount: rd_u64(b, 16),
                loan_amount: rd_u64(b, 24),
                created_at: rd_u64(b, 32),
            },
        )
    }
}

/// Serializes a loan record to its fixed-width byte representation.
pub fn encode_loan(l: &Loan) -> (r: Vec<u8>)
    ensures
        r@ == spec_encode_loan(*l),
{
    let mut out: Vec<u8> = Vec::new();
    put_u64(&mut out, l.id);
    put_u64(&mut out, l.owner.0);
    put_u64(&mut out, l.collateral_amount);
    put_u64(&mut out, l.loan_amount);
    put_u64(&mut out, l.created_at);
    proof {
        assert(out@ =~= spec_encode_loan(*l));
    }
    out
}

/// Deserializes a loan record from bytes; malformed input yields `None`.
pub fn decode_loan(b: &[u8]) -> (r: Option<Loan>)
    ensures
        match r {
            Some(l) => spec_decode_loan(b@) == Some(l),
            None => spec_decode_loan(b@) is None,
        },
{
    if b.len() != 40 {
        return None;
    }
    Some(
        Loan {
            id: read_u64(b, 0),
            owner: PartyId(read_u64(b, 8)),
            collateral_amount: read_u64(b, 16),
            loan_amount: read_u64(b, 24),
            created_at: read_u64(b, 32),
        },
    )
}

/// Law: loan serialization round-trips exactly.
pub proof fn lemma_loan_round_trip(m: Loan)
    ensures
        spec_decode_loan(spec_encode_loan(m)) == Some(m),
{
    lemma_auto_spec_u64_to_from_le_bytes();
    let e = spec_encode_loan(m);
    assert(e.len() == 40);
    assert(e.subrange(0, 8) =~= spec_u64_to_le_bytes(m.id));
    assert(e.subrange(8, 16) =~= spec_u64_to_le_bytes(m.owner.0));
    assert(e.subrange(16, 24) =~= spec_u64_to_le_bytes(m.collateral_amount));
    assert(e.subrange(24, 32) =~= spec_u64_to_le_bytes(m.loan_amount));
    assert(e.subrange(32, 40) =~= spec_u64_to_le_bytes(m.created_at));
}

/// The byte under which an agreement status is stored.
pub open spec fn agreement_tag(s: AgreementStatus) -> u8 {
    match s {
        AgreementStatus::Active => 0,
        AgreementStatus::Repaid => 1,
    }
}

/// The agreement status a byte stands for, if any.
pub open spec fn tag_agreement(b: u8) -> Option<AgreementStatus> {
    if b == 0 {
        Some(AgreementStatus::Active)
    } else if b == 1 {
        Some(AgreementStatus::Repaid)
    } else {
        None
    }
}

/// The byte representation of a full agreement payload: six numeric fields of
/// eight bytes each and one status byte.
pub open spec fn spec_encode_agreement(m: AgreementRecord) -> Seq<u8> {
    spec_u64_to_le_bytes(m.id) + spec_u64_to_le_bytes(m.party_a.0) + spec_u64_to_le_bytes(
        m.party_b.0,
    ) + spec_u64_to_le_bytes(m.collateral_amount) + spec_u64_to_le_bytes(m.principal_amount)
        + spec_u64_to_le_bytes(m.created_at) + seq![agreement_tag(m.status)]
}

/// The agreement payload a byte string stands for, if it is a well-formed
/// encoding.
pub open spec fn spec_decode_agreement(b: Seq<u8>) -> Option<AgreementRecord> {
    if b.len() != 49 {
        None
    } else if tag_agreement(b[48]) is None {
        None
    } else {
        Some(
            AgreementRecord {
                id: rd_u64(b, 0),
                party_a: PartyId(rd_u64(b, 8)),
                party_b: PartyId(rd_u64(b, 16)),
                collateral_amount: rd_u64(b, 24),
                principal_amount: rd_u64(b, 32),
                created_at: rd_u64(b, 40),
                status: tag_agreement(b[48]).unwrap(),
            },
        )
    }
}

/// Serializes a full agreement payload for the content-addressed store.
pub fn encode_agreement(a: &AgreementRecord) -> (r: Vec<u8>)
    ensures
        r@ == spec_encode_agreement(*a),
{
    let mut out: Vec<u8> = Vec::new();
    put_u64(&mut out, a.id);
    put_u64(&mut out, a.party_a.0);
    put_u64(&mut out, a.party_b.0);
    put_u64(&mut out, a.collateral_amount);
    put_u64(&mut out, a.principal_amount);
    put_u64(&mut out, a.created_at);
    let tag: u8 = match a.status {
        AgreementStatus::Active => 0,
        AgreementStatus::Repaid => 1,
    };
    out.push(tag);
    proof {
        assert(out@ =~= spec_encode_agreement(*a));
    }
    out
}

/// Deserializes a full agreement payload; malformed input yields `None`.
pub fn decode_agreement(b: &[u8]) -> (r: Option<AgreementRecord>)
    ensures
        match r {
            Some(a) => spec_decode_agreement(b@) == Some(a),
            None => spec_decode_agreement(b@) is None,
        },
{
    if b.len() != 49 {
        return None;
    }
    let status = match b[48] {
        0 => AgreementStatus::Active,
        1 => AgreementStatus::Repaid,
        _ => {
            return None;
        },
    };
    Some(
        AgreementRecord {
            id: read_u64(b, 0),
            party_a: PartyId(read_u64(b, 8)),
            party_b: PartyId(read_u64(b, 16)),
            collateral_amount: read_u64(b, 24),
            principal_amount: read_u64(b, 32),
            created_at: read_u64(b, 40),
            status,
        },
    )
}

/// Law: agreement serialization round-trips exactly.
pub proof fn lemma_agreement_round_trip(m: AgreementRecord)
    ensures
        spec_decode_agreement(spec_encode_agreement(m)) == Some(m),
{
    lemma_auto_spec_u64_to_from_le_bytes();
    let e = spec_encode_agreement(m);
    assert(e.len() == 49);
    assert(e.subrange(0, 8) =~= spec_u64_to_le_bytes(m.id));
    assert(e.subrange(8, 16) =~= spec_u64_to_le_bytes(m.party_a.0));
    assert(e.subrange(16, 24) =~= spec_u64_to_le_bytes(m.party_b.0));
    assert(e.subrange(24, 32) =~= spec_u64_to_le_bytes(m.collateral_amount));
    assert(e.subrange(32, 40) =~= spec_u64_to_le_bytes(m.principal_amount));
    assert(e.subrange(40, 48) =~= spec_u64_to_le_bytes(m.created_at));
    assert(e[48] == agreement_tag(m.status));
}

/// The byte representation of a reference record: the id and owning party,
/// one status byte, then the external content hash verbatim.
pub open spec fn spec_encode_ref(m: RefModel) -> Seq<u8> {
    spec_u64_to_le_bytes(m.id) + spec_u64_to_le_bytes(m.party_a.0) + seq![agreement_tag(m.status)]
        + m.external_hash
}

/// The reference record a byte string stands for, if it is a well-formed
/// encoding.
pub open spec fn spec_decode_ref(b: Seq<u8>) -> Option<RefModel> {
    if b.len() < 17 {
        None
    } else if tag_agreement(b[16]) is None {
        None
    } else {
        Some(
            RefModel {
                id: rd_u64(b, 0),
                party_a: PartyId(rd_u64(b, 8)),
                status: tag_agreement(b[16]).unwrap(),
                external_hash: b.subrange(17, b.len() as int),
            },
        )
    }
}

/// Serializes a reference record.
pub fn encode_ref(rr: &RefRecord) -> (r: Vec<u8>)
    ensures
        r@ == spec_encode_ref(rr@),
{
    let mut out: Vec<u8> = Vec::new();
    put_u64(&mut out, rr.id);
    put_u64(&mut out, rr.party_a.0);
    let tag: u8 = match rr.status {
        AgreementStatus::Active => 0,
        AgreementStatus::Repaid => 1,
    };
    out.push(tag);
    let mut h = rr.external_hash.clone();
    out.append(&mut h);
    proof {
        assert(out@ =~= spec_encode_ref(rr@));
    }
    out
}

/// Deserializes a reference record; malformed input yields `None`.
pub fn decode_ref(b: &[u8]) -> (r: Option<RefRecord>)
    ensures
        match r {
            Some(rr) => spec_decode_ref(b@) == Some(rr@),
            None => spec_decode_ref(b@) is None,
        },
{
    let n = b.len();
    if n < 17 {
        return None;
    }
    let status = match b[16] {
        0 => AgreementStatus::Active,
        1 => AgreementStatus::Repaid,
        _ => {
            return None;
        },
    };
    let rr = RefRecord {
        id: read_u64(b, 0),
        party_a: PartyId(read_u64(b, 8)),
        status,
        external_hash: slice_to_vec(slice_subrange(b, 17, n)),
    };
    proof {
        let d = spec_decode_ref(b@);
        assert(d is Some);
        assert(d.unwrap() =~= rr@);
    }
    Some(rr)
}

/// Law: reference-record serialization round-trips exactly.
pub proof fn lemma_ref_round_trip(m: RefModel)
    ensures
        spec_decode_ref(spec_encode_ref(m)) == Some(m),
{
    lemma_auto_spec_u64_to_from_le_bytes();
    let e = spec_encode_ref(m);
    assert(e.len() == 17 + m.external_hash.len());
    assert(e.subrange(0, 8) =~= spec_u64_to_le_bytes(m.id));
    assert(e.subrange(8, 16) =~= spec_u64_to_le_bytes(m.party_a.0));
    assert(e[16] == agreement_tag(m.status));
    assert(e.subrange(17, e.len() as int) =~= m.external_hash);
    assert(spec_decode_ref(e) is Some);
    assert(spec_decode_ref(e).unwrap() =~= m);
}

/// A profile is well formed when its linked address, if any, is ASCII.
pub open spec fn profile_wf(m: ProfileModel) -> bool {
    match m.btc_address {
        Some(a) => is_ascii_chars(a),
        None => true,
    }
}

/// The byte representation of a user profile: a presence byte, then the
/// linked address, one byte per character.
pub open spec fn spec_encode_profile(m: ProfileModel) -> Seq<u8> {
    match m.btc_address {
        Some(a) => seq![1u8] + ascii_bytes_of(a),
        None => seq![0u8],
    }
}

/// The profile a byte string stands for, if it is a well-formed encoding.
pub open spec fn spec_decode_profile(b: Seq<u8>) -> Option<ProfileModel> {
    if b.len() < 1 {
        None
    } else if b[0] == 0 {
        if b.len() == 1 {
            Some(ProfileModel { btc_address: None })
        } else {
            None
        }
    } else if b[0] == 1 {
        if bytes_all_ascii(b.subrange(1, b.len() as int)) {
            Some(ProfileModel { btc_address: Some(chars_of_bytes(b.subrange(1, b.len() as int))) })
        } else {
            None
        }
    } else {
        None
    }
}

/// Serializes a user profile.
pub fn encode_profile(p: &UserProfile) -> (r: Vec<u8>)
    requires
        profile_wf(p@),
    ensures
        r@ == spec_encode_profile(p@),
{
    let mut out: Vec<u8> = Vec::new();
    match p.btc_address {
        Some(ref a) => {
            out.push(1);
            let s = a.as_str();
            let mut ab = s.as_bytes_vec();
            proof {
                broadcast use vstd::string::is_ascii_spec_bytes;

                assert(vstd::string::is_ascii(s));
                assert(ab@ =~= ascii_bytes_of(a@));
            }
            out.append(&mut ab);
        },
        None => {
            out.push(0);
        },
    }
    proof {
        assert(out@ =~= spec_encode_profile(p@));
    }
    out
}

/// Deserializes a user profile; malformed input yields `None`.
pub fn decode_profile(b: &[u8]) -> (r: Option<UserProfile>)
    ensures
        match r {
            Some(p) => spec_decode_profile(b@) == Some(p@),
            None => spec_decode_profile(b@) is None,
        },
{
    let n = b.len();
    if n < 1 {
        return None;
    }
    if b[0] == 0 {
        if n == 1 {
            let p = UserProfile { btc_address: None };
            proof {
                assert(spec_decode_profile(b@).unwrap() =~= p@);
            }
            return Some(p);
        }
        return None;
    }
    if b[0] != 1 {
        return None;
    }
    let mut i: usize = 1;
    while i < n
        invariant
            1 <= i <= n,
            n == b@.len(),
            forall|j: int| 1 <= j < i ==> b@[j] < 128,
        decreases n - i,
    {
        if b[i] >= 128 {
            proof {
                assert(b@.subrange(1, n as int)[i - 1] == b@[i as int]);
                assert(!bytes_all_ascii(b@.subrange(1, n as int)));
            }
            return None;
        }
        i = i + 1;
    }
    proof {
        assert forall|j: int| 0 <= j < n - 1 implies b@.subrange(1, n as int)[j] < 128 by {
            assert(b@.subrange(1, n as int)[j] == b@[j + 1]);
        }
    }
    let ab = slice_to_vec(slice_subrange(b, 1, n));
    let address = string_from_ascii(ab);
    let p = UserProfile { btc_address: Some(address) };
    proof {
        let d = spec_decode_profile(b@);
        assert(d is Some);
        assert(d.unwrap() =~= p@);
    }
    Some(p)
}

/// Law: profile serialization round-trips exactly for well-formed profiles.
pub proof fn lemma_profile_round_trip(m: ProfileModel)
    requires
        profile_wf(m),
    ensures
        spec_decode_profile(spec_encode_profile(m)) == Some(m),
{
    let e = spec_encode_profile(m);
    match m.btc_address {
        None => {
            assert(e.len() == 1 && e[0] == 0);
            assert(spec_decode_profile(e).unwrap() =~= m);
        },
        Some(a) => {
            let ab = ascii_bytes_of(a);
            assert(e.len() == 1 + ab.len());
            assert(e[0] == 1);
            assert(e.subrange(1, e.len() as int) =~= ab);
            assert forall|i: int| 0 <= i < ab.len() implies ab[i] < 128 by {
                assert(a[i] <= '\u{7f}');
            }
            assert(chars_of_bytes(ab) =~= a);
            assert(spec_decode_profile(e) is Some);
            assert(spec_decode_profile(e).unwrap() =~= m);
        },
    }
}

/// The byte representation of a list of record ids: eight bytes per id, in
/// order.
pub open spec fn spec_encode_ids(ids: Seq<u64>) -> Seq<u8>
    decreases ids.len(),
{
    if ids.len() == 0 {
        Seq::empty()
    } else {
        spec_u64_to_le_bytes(ids[0]) + spec_encode_ids(ids.skip(1))
    }
}

/// The id list a byte string stands for, if its length is a multiple of
/// eight.
pub open spec fn spec_decode_ids(b: Seq<u8>) -> Option<Seq<u64>>
    decreases b.len(),
{
    if b.len() == 0 {
        Some(Seq::empty())
    } else if b.len() < 8 {
        None
    } else {
        match spec_decode_ids(b.skip(8)) {
            Some(rest) => Some(seq![rd_u64(b, 0)] + rest),
            None => None,
        }
    }
}

proof fn lemma_encode_ids_len(ids: Seq<u64>)
    ensures
        spec_encode_ids(ids).len() == 8 * ids.len(),
    decreases ids.len(),
{
    lemma_auto_spec_u64_to_from_le_bytes();
    if ids.len() > 0 {
        lemma_encode_ids_len(ids.skip(1));
    }
}

proof fn lemma_encode_ids_push(ids: Seq<u64>, x: u64)
    ensures
        spec_encode_ids(ids.push(x)) == spec_encode_ids(ids) + spec_u64_to_le_bytes(x),
    decreases ids.len(),
{
    lemma_auto_spec_u64_to_from_le_bytes();
    let p = ids.push(x);
    if ids.len() == 0 {
        assert(p[0] == x);
        assert(p.skip(1) =~= Seq::empty());
        assert(spec_encode_ids(p) == spec_u64_to_le_bytes(x) + spec_encode_ids(p.skip(1)));
        assert(spec_encode_ids(p) =~= spec_encode_ids(ids) + spec_u64_to_le_bytes(x));
    } else {
        lemma_encode_ids_push(ids.skip(1), x);
        assert(p.skip(1) =~= ids.skip(1).push(x));
        assert(p[0] == ids[0]);
        assert(spec_encode_ids(p) == spec_u64_to_le_bytes(ids[0]) + (spec_encode_ids(ids.skip(1))
            + spec_u64_to_le_bytes(x)));
        assert(spec_encode_ids(p) =~= spec_encode_ids(ids) + spec_u64_to_le_bytes(x));
    }
}

/// Serializes a list of record ids.
pub fn encode_ids(ids: &Vec<u64>) -> (r: Vec<u8>)
    ensures
        r@ == spec_encode_ids(ids@),
{
    let mut out: Vec<u8> = Vec::new();
    let mut i: usize = 0;
    while i < ids.len()
        invariant
            0 <= i <= ids@.len(),
            out@ == spec_encode_ids(ids@.subrange(0, i as int)),
        decreases ids@.len() - i,
    {
        proof {
            lemma_encode_ids_push(ids@.subrange(0, i as int), ids@[i as int]);
            assert(ids@.subrange(0, i as int).push(ids@[i as int]) =~= ids@.subrange(
                0,
                i as int + 1,
            ));
        }
        put_u64(&mut out, ids[i]);
        i = i + 1;
    }
    proof {
        assert(ids@.subrange(0, ids@.len() as int) =~= ids@);
    }
    out
}

/// Deserializes a list of record ids; a length that is not a multiple of
/// eight yields `None`.
pub fn decode_ids(b: &[u8]) -> (r: Option<Vec<u64>>)
    ensures
        match r {
            Some(ids) => spec_decode_ids(b@) == Some(ids@),
            None => spec_decode_ids(b@) is None,
        },
{
    let n = b.len();
    if n % 8 != 0 {
        proof {
            lemma_decode_ids_bad_len(b@);
        }
        return None;
    }
    let mut out: Vec<u64> = Vec::new();
    proof {
        assert(b@.skip(0) =~= b@);
        let d = spec_decode_ids(b@);
        if d is Some {
            assert(out@ + d.unwrap() =~= d.unwrap());
        }
    }
    let mut i: usize = 0;
    while i < n
        invariant
            0 <= i <= n,
            i % 8 == 0,
            n % 8 == 0,
            n == b@.len(),
            spec_decode_ids(b@) == match spec_decode_ids(b@.skip(i as int)) {
                Some(rest) => Some(out@ + rest),
                None => None::<Seq<u64>>,
            },
        decreases n - i,
    {
        let ghost prev_out = out@;
        let ghost ii = i as int;
        proof {
            lemma_decode_ids_step(b@, ii);
        }
        let x = read_u64(b, i);
        out.push(x);
        i = i + 8;
        proof {
            let drest = spec_decode_ids(b@.skip(ii + 8));
            if drest is Some {
                assert(prev_out + (seq![rd_u64(b@, ii)] + drest.unwrap()) =~= out@
                    + drest.unwrap());
            }
        }
    }
    proof {
        assert(b@.skip(n as int) =~= Seq::empty());
        assert(out@ + Seq::empty() =~= out@);
    }
    Some(out)
}

proof fn lemma_decode_ids_bad_len(b: Seq<u8>)
    requires
        b.len() % 8 != 0,
    ensures
        spec_decode_ids(b) is None,
    decreases b.len(),
{
    if b.len() >= 8 {
        lemma_decode_ids_bad_len(b.skip(8));
    }
}

proof fn lemma_decode_ids_step(b: Seq<u8>, i: int)
    requires
        0 <= i,
        i + 8 <= b.len(),
    ensures
        spec_decode_ids(b.skip(i)) == match spec_decode_ids(b.skip(i + 8)) {
            Some(rest) => Some(seq![rd_u64(b, i)] + rest),
            None => None::<Seq<u64>>,
        },
{
    let s = b.skip(i);
    assert(s.len() >= 8);
    assert(s.skip(8) =~= b.skip(i + 8));
    assert(s.subrange(0, 8) =~= b.subrange(i, i + 8));
}

/// Law: id-list serialization round-trips exactly.
pub proof fn lemma_ids_round_trip(ids: Seq<u64>)
    ensures
        spec_decode_ids(spec_encode_ids(ids)) == Some(ids),
    decreases ids.len(),
{
    lemma_auto_spec_u64_to_from_le_bytes();
    let e = spec_encode_ids(ids);
    lemma_encode_ids_len(ids);
    if ids.len() == 0 {
        assert(spec_decode_ids(e) == Some(ids));
    } else {
        lemma_ids_round_trip(ids.skip(1));
        lemma_encode_ids_len(ids.skip(1));
        assert(e.skip(8) =~= spec_encode_ids(ids.skip(1)));
        assert(e.subrange(0, 8) =~= spec_u64_to_le_bytes(ids[0]));
        assert(rd_u64(e, 0) == ids[0]);
        assert(seq![ids[0]] + ids.skip(1) =~= ids);
    }
}

} // verus!
