use vstd::prelude::*;
use crate::errors::ValidationError;

verus! {

/// The closed set of address-format variants the validator recognizes,
/// classified by literal prefix.
#[derive(Clone, Copy, Debug, PartialEq, Eq, Structural)]
pub enum BtcAddressType {
    Legacy,
    ScriptHash,
    Bech32,
    Taproot,
    TestnetLegacy,
    TestnetScript,
    TestnetBech32,
    TestnetTaproot,
    Invalid,
}

/// The base-58 alphabet of the legacy and script-hash variants: digits and
/// letters except 0, I, O and l.
pub open spec fn is_base58_char(c: char) -> bool {
    let x = c as u32;
    ('1' as u32 <= x && x <= '9' as u32) || ('A' as u32 <= x && x <= 'H' as u32) || ('J' as u32
        <= x && x <= 'N' as u32) || ('P' as u32 <= x && x <= 'Z' as u32) || ('a' as u32 <= x && x
        <= 'k' as u32) || ('m' as u32 <= x && x <= 'z' as u32)
}

/// The base-32 alphabet of the segwit and taproot variants: digits and lower
/// case letters.
pub open spec fn is_bech32_char(c: char) -> bool {
    let x = c as u32;
    ('0' as u32 <= x && x <= '9' as u32) || ('a' as u32 <= x && x <= 'z' as u32)
}

/// The whitespace characters the validator strips conceptually: space, tab,
/// line feed, form feed and carriage return.
pub open spec fn is_space_char(c: char) -> bool {
    c == ' ' || c == '\t' || c == '\n' || c == '\r' || c as u32 == 12
}

/// A string is blank when it is empty or every character is whitespace.
pub open spec fn is_blank(s: Seq<char>) -> bool {
    forall|i: int| 0 <= i < s.len() ==> is_space_char(s[i])
}

/// Classification of an address string by literal prefix, most-specific
/// first: a four-character prefix is decided before its one-character parent,
/// so a taproot-style address never misclassifies as generic segwit.
pub open spec fn spec_classify(s: Seq<char>) -> BtcAddressType {
    if s.len() >= 1 && s[0] == '1' {
        BtcAddressType::Legacy
    } else if s.len() >= 1 && s[0] == '3' {
        BtcAddressType::ScriptHash
    } else if s.len() >= 4 && s[0] == 'b' && s[1] == 'c' && s[2] == '1' && s[3] == 'q' {
        BtcAddressType::Bech32
    } else if s.len() >= 4 && s[0] == 'b' && s[1] == 'c' && s[2] == '1' && s[3] == 'p' {
        BtcAddressType::Taproot
    } else if s.len() >= 1 && (s[0] == 'm' || s[0] == 'n') {
        BtcAddressType::TestnetLegacy
    } else if s.len() >= 1 && s[0] == '2' {
        BtcAddressType::TestnetScript
    } else if s.len() >= 4 && s[0] == 't' && s[1] == 'b' && s[2] == '1' && s[3] == 'q' {
        BtcAddressType::TestnetBech32
    } else if s.len() >= 4 && s[0] == 't' && s[1] == 'b' && s[2] == '1' && s[3] == 'p' {
        BtcAddressType::TestnetTaproot
    } else {
        BtcAddressType::Invalid
    }
}

/// The variants whose alphabet is base-58.
pub open spec fn is_base58_family(t: BtcAddressType) -> bool {
    t == BtcAddressType::Legacy || t == BtcAddressType::ScriptHash || t
        == BtcAddressType::TestnetLegacy || t == BtcAddressType::TestnetScript
}

/// The variants whose alphabet is base-32 and that carry a separator.
pub open spec fn is_segwit_family(t: BtcAddressType) -> bool {
    t == BtcAddressType::Bech32 || t == BtcAddressType::Taproot || t
        == BtcAddressType::TestnetBech32 || t == BtcAddressType::TestnetTaproot
}

/// Per-variant inclusive length range.
pub open spec fn spec_len_ok(t: BtcAddressType, n: nat) -> bool {
    if is_base58_family(t) {
        26 <= n && n <= 34
    } else if t == BtcAddressType::Bech32 || t == BtcAddressType::TestnetBech32 {
        42 <= n && n <= 62
    } else if t == BtcAddressType::Taproot || t == BtcAddressType::TestnetTaproot {
        62 <= n && n <= 64
    } else {
        false
    }
}

/// Per-variant alphabet check over every character.
pub open spec fn spec_charset_ok(t: BtcAddressType, s: Seq<char>) -> bool {
    if is_base58_family(t) {
        forall|i: int| 0 <= i < s.len() ==> is_base58_char(s[i])
    } else if is_segwit_family(t) {
        forall|i: int| 0 <= i < s.len() ==> is_bech32_char(s[i])
    } else {
        false
    }
}

/// The position of the first separator character '1' at or after `i`, or the
/// string's length if there is none.
pub open spec fn first_sep_from(s: Seq<char>, i: int) -> int
    decreases s.len() - i when 0 <= i <= s.len()
{
    if i >= s.len() {
        s.len() as int
    } else if s[i] == '1' {
        i
    } else {
        first_sep_from(s, i + 1)
    }
}

/// The length of the data part of a segwit-family address: the characters
/// strictly between the first separator and the next separator or the end.
pub open spec fn spec_data_part_len(s: Seq<char>) -> int {
    let f = first_sep_from(s, 0);
    let g = first_sep_from(s, f + 1);
    g - (f + 1)
}

/// What validating a classified address returns: the length check first, then
/// the alphabet check, then, for segwit-family variants, the separator and
/// the minimum data-part length.
pub open spec fn spec_validate_by_type(s: Seq<char>, t: BtcAddressType) -> Result<
    (),
    ValidationError,
> {
    if !spec_len_ok(t, s.len()) {
        Err(ValidationError::BadLength)
    } else if !spec_charset_ok(t, s) {
        Err(ValidationError::BadCharacter)
    } else if is_segwit_family(t) {
        if first_sep_from(s, 0) == s.len() {
            Err(ValidationError::MissingSeparator)
        } else if spec_data_part_len(s) < 6 {
            Err(ValidationError::DataPartTooShort)
        } else {
            Ok(())
        }
    } else {
        Ok(())
    }
}

/// What validating an arbitrary address string returns: blank input is
/// rejected first, then an unrecognized prefix, then the per-variant checks.
pub open spec fn spec_validate_addr(s: Seq<char>) -> Result<(), ValidationError> {
    if is_blank(s) {
        Err(ValidationError::EmptyInput)
    } else if spec_classify(s) == BtcAddressType::Invalid {
        Err(ValidationError::UnrecognizedFormat)
    } else {
        spec_validate_by_type(s, spec_classify(s))
    }
}

/// An address string is valid exactly when the validator accepts it.
pub open spec fn spec_addr_valid(s: Seq<char>) -> bool {
    spec_validate_addr(s) == Ok::<(), ValidationError>(())
}

/// Every address the validator accepts is ASCII: both alphabets lie below
/// 0x80.
pub proof fn lemma_valid_addr_ascii(s: Seq<char>)
    requires
        spec_addr_valid(s),
    ensures
        vstd::utf8::is_ascii_chars(s),
{
    let t = spec_classify(s);
    assert(spec_charset_ok(t, s));
    assert forall|i: int| 0 <= i < s.len() implies '\0' <= #[trigger] s[i] <= '\u{7f}' by {
        if is_base58_family(t) {
            assert(is_base58_char(s[i]));
        } else {
            assert(is_segwit_family(t));
            assert(is_bech32_char(s[i]));
        }
        assert(s[i] as u32 <= 'z' as u32);
        assert(s[i] as u32 <= 127);
        vstd::utf8::char_u32_cast(s[i], s[i] as u32);
        assert('\0' <= s[i]);
        assert(s[i] <= '\u{7f}');
    }
}

fn char_is_base58(c: char) -> (r: bool)
    ensures
        r == is_base58_char(c),
{
    let x = c as u32;
    ('1' as u32 <= x && x <= '9' as u32) || ('A' as u32 <= x && x <= 'H' as u32) || ('J' as u32
        <= x && x <= 'N' as u32) || ('P' as u32 <= x && x <= 'Z' as u32) || ('a' as u32 <= x && x
        <= 'k' as u32) || ('m' as u32 <= x && x <= 'z' as u32)
}

fn char_is_bech32(c: char) -> (r: bool)
    ensures
        r == is_bech32_char(c),
{
    let x = c as u32;
    ('0' as u32 <= x && x <= '9' as u32) || ('a' as u32 <= x && x <= 'z' as u32)
}

fn char_is_space(c: char) -> (r: bool)
    ensures
        r == is_space_char(c),
{
    c == ' ' || c == '\t' || c == '\n' || c == '\r' || c as u32 == 12
}

/// True when the string is empty or all whitespace.
pub fn is_blank_str(s: &str) -> (r: bool)
    ensures
        r == is_blank(s@),
{
    let n = s.unicode_len();
    let mut i: usize = 0;
    while i < n
        invariant
            0 <= i <= n,
            n == s@.len(),
            forall|j: int| 0 <= j < i ==> is_space_char(s@[j]),
        decreases n - i,
    {
        if !char_is_space(s.get_char(i)) {
            return false;
        }
        i = i + 1;
    }
    true
}

/// Classifies a string into one of the address-format variants by literal
/// prefix matching, most-specific prefix first.
pub fn identify_btc_address_type(address: &str) -> (t: BtcAddressType)
    ensures
        t == spec_classify(address@),
{
    let n = address.unicode_len();
    if n == 0 {
        return BtcAddressType::Invalid;
    }
    let c0 = address.get_char(0);
    if c0 == '1' {
        return BtcAddressType::Legacy;
    }
    if c0 == '3' {
        return BtcAddressType::ScriptHash;
    }
    if c0 == 'm' || c0 == 'n' {
        return BtcAddressType::TestnetLegacy;
    }
    if c0 == '2' {
        return BtcAddressType::TestnetScript;
    }
    if n >= 4 && (c0 == 'b' || c0 == 't') {
        let c1 = address.get_char(1);
        let c2 = address.get_char(2);
        let c3 = address.get_char(3);
        if c0 == 'b' && c1 == 'c' && c2 == '1' && c3 == 'q' {
            return BtcAddressType::Bech32;
        }
        if c0 == 'b' && c1 == 'c' && c2 == '1' && c3 == 'p' {
            return BtcAddressType::Taproot;
        }
        if c0 == 't' && c1 == 'b' && c2 == '1' && c3 == 'q' {
            return BtcAddressType::TestnetBech32;
        }
        if c0 == 't' && c1 == 'b' && c2 == '1' && c3 == 'p' {
            return BtcAddressType::TestnetTaproot;
        }
    }
    BtcAddressType::Invalid
}

fn all_chars_base58(s: &str) -> (r: bool)
    ensures
        r == forall|i: int| 0 <= i < s@.len() ==> is_base58_char(s@[i]),
{
    let n = s.unicode_len();
    let mut i: usize = 0;
    while i < n
        invariant
            0 <= i <= n,
            n == s@.len(),
            forall|j: int| 0 <= j < i ==> is_base58_char(s@[j]),
        decreases n - i,
    {
        if !char_is_base58(s.get_char(i)) {
            return false;
        }
        i = i + 1;
    }
    true
}

fn all_chars_bech32(s: &str) -> (r: bool)
    ensures
        r == forall|i: int| 0 <= i < s@.len() ==> is_bech32_char(s@[i]),
{
    let n = s.unicode_len();
    let mut i: usize = 0;
    while i < n
        invariant
            0 <= i <= n,
            n == s@.len(),
            forall|j: int| 0 <= j < i ==> is_bech32_char(s@[j]),
        decreases n - i,
    {
        if !char_is_bech32(s.get_char(i)) {
            return false;
        }
        i = i + 1;
    }
    true
}

proof fn lemma_first_sep_skip(s: Seq<char>, start: int, i: int)
    requires
        0 <= start <= i <= s.len(),
        forall|j: int| start <= j < i ==> s[j] != '1',
    ensures
        first_sep_from(s, start) == first_sep_from(s, i),
    decreases i - start,
{
    if start < i {
        lemma_first_sep_skip(s, start + 1, i);
    }
}

/// The position of the first separator '1' at or after `start`, or the
/// length if there is none.
fn find_sep(s: &str, start: usize) -> (r: usize)
    requires
        start <= s@.len(),
    ensures
        r == first_sep_from(s@, start as int),
        start <= r <= s@.len(),
{
    let n = s.unicode_len();
    let mut i: usize = start;
    while i < n
        invariant
            start <= i <= n,
            n == s@.len(),
            forall|j: int| start <= j < i ==> s@[j] != '1',
        decreases n - i,
    {
        if s.get_char(i) == '1' {
            proof {
                lemma_first_sep_skip(s@, start as int, i as int);
            }
            return i;
        }
        i = i + 1;
    }
    proof {
        lemma_first_sep_skip(s@, start as int, n as int);
    }
    n
}

/// Validates an address against the length, alphabet and separator rules of
/// the given format variant.
pub fn validate_address_by_type(address: &str, address_type: BtcAddressType) -> (r: Result<
    (),
    ValidationError,
>)
    ensures
        r == spec_validate_by_type(address@, address_type),
{
    let n = address.unicode_len();
    let base58 = matches!(
        address_type,
        BtcAddressType::Legacy | BtcAddressType::ScriptHash | BtcAddressType::TestnetLegacy
            | BtcAddressType::TestnetScript
    );
    let bech = matches!(address_type, BtcAddressType::Bech32 | BtcAddressType::TestnetBech32);
    let tap = matches!(address_type, BtcAddressType::Taproot | BtcAddressType::TestnetTaproot);
    let len_ok = if base58 {
        26 <= n && n <= 34
    } else if bech {
        42 <= n && n <= 62
    } else if tap {
        62 <= n && n <= 64
    } else {
        false
    };
    if !len_ok {
        return Err(ValidationError::BadLength);
    }
    let chars_ok = if base58 {
        all_chars_base58(address)
    } else {
        all_chars_bech32(address)
    };
    if !chars_ok {
        return Err(ValidationError::BadCharacter);
    }
    if bech || tap {
        let f = find_sep(address, 0);
        if f == n {
            return Err(ValidationError::MissingSeparator);
        }
        let g = find_sep(address, f + 1);
        if g - (f + 1) < 6 {
            return Err(ValidationError::DataPartTooShort);
        }
    }
    Ok(())
}

/// Validates an address string: rejects blank input, classifies the format
/// variant by prefix, then applies the per-variant checks. Pure and total:
/// identical input always yields identical output.
pub fn validate_btc_address(address: &str) -> (r: Result<(), ValidationError>)
    ensures
        r == spec_validate_addr(address@),
{
    if is_blank_str(address) {
        return Err(ValidationError::EmptyInput);
    }
    let address_type = identify_btc_address_type(address);
    if matches!(address_type, BtcAddressType::Invalid) {
        return Err(ValidationError::UnrecognizedFormat);
    }
    validate_address_by_type(address, address_type)
}

} // verus!
