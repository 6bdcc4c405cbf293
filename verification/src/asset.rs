//! Asset naming rules and the derivation of contract-created asset
//! identifiers.
use vstd::prelude::*;
use vstd::string::StringSliceAdditionalSpecFns;

use crate::endian::spec_u64_to_be_bytes;
use crate::endian::u64_to_be_bytes;

verus! {

/// Maximum length of an asset ticker, in bytes.
pub const TICKER_LEN: usize = 8;

/// What the blake3 hash function returns for the given input bytes: a
/// 32-byte digest depending on the input alone.
pub uninterp spec fn blake3_of(input: Seq<u8>) -> Seq<u8>;

/// Relies on blake3::hash: a 32-byte digest of the input, a function of the
/// input bytes alone.
#[verifier::external_body]
fn blake3_hash32(input: &Vec<u8>) -> (r: [u8; 32])
    ensures
        r@ == blake3_of(input@),
{
    blake3::hash(input.as_slice()).into()
}

/// Whether a character may appear in an asset name or ticker: upper-case
/// letters and digits always; lower-case letters unless upper case only is
/// demanded; a space only where whitespace is allowed.
pub open spec fn spec_valid_char_for_asset(c: char, whitespace: bool, uppercase_only: bool) -> bool {
    ||| 65 <= c as u32 <= 90
    ||| 48 <= c as u32 <= 57
    ||| (97 <= c as u32 <= 122 && !uppercase_only)
    ||| (c == ' ' && whitespace)
}

/// Whether a whole asset name or ticker is valid: every character valid,
/// and, where whitespace is allowed at all, none at either end.
pub open spec fn spec_valid_str_for_asset(
    name: Seq<char>,
    whitespace: bool,
    uppercase_only: bool,
) -> bool {
    &&& (whitespace && name.len() > 0) ==> (name[0] != ' ' && name.last() != ' ')
    &&& forall|i: int|
        0 <= i < name.len() ==> spec_valid_char_for_asset(
            #[trigger] name[i],
            whitespace,
            uppercase_only,
        )
}

/// Checks whether one character may appear in an asset name or ticker.
pub fn is_valid_char_for_asset(c: char, whitespace: bool, uppercase_only: bool) -> (r: bool)
    ensures
        r == spec_valid_char_for_asset(c, whitespace, uppercase_only),
{
    let v = c as u32;
    if 65 <= v && v <= 90 {
        true
    } else if 48 <= v && v <= 57 {
        true
    } else if 97 <= v && v <= 122 && !uppercase_only {
        true
    } else {
        c == ' ' && whitespace
    }
}

/// Checks whether an asset name or ticker is valid.
pub fn is_valid_str_for_asset(name: &str, whitespace: bool, uppercase_only: bool) -> (r: bool)
    ensures
        r == spec_valid_str_for_asset(name@, whitespace, uppercase_only),
{
    let n = name.unicode_len();
    if whitespace && n > 0 {
        if name.get_char(0) == ' ' {
            return false;
        }
        if name.get_char(n - 1) == ' ' {
            proof {
                assert(name@.last() == ' ');
            }
            return false;
        }
    }
    let mut i: usize = 0;
    while i < n
        invariant
            i <= n,
            n == name@.len(),
            forall|k: int|
                0 <= k < i ==> spec_valid_char_for_asset(
                    #[trigger] name@[k],
                    whitespace,
                    uppercase_only,
                ),
        decreases n - i,
    {
        if !is_valid_char_for_asset(name.get_char(i), whitespace, uppercase_only) {
            return false;
        }
        i += 1;
    }
    true
}

/// Why an asset creation request is rejected.
#[derive(Clone, Copy, Debug, PartialEq, Eq, Structural)]
pub enum AssetCreateError {
    /// The ticker exceeds `TICKER_LEN` bytes.
    TickerTooLong,
    /// The ticker holds a character outside upper-case letters and digits.
    TickerInvalid,
    /// The name exceeds 255 bytes.
    NameTooLong,
    /// The name holds an invalid character or edge whitespace.
    NameInvalid,
}

/// The acceptance rule for a new asset's name and ticker, checked in order:
/// ticker length, ticker characters (upper case, no whitespace), name
/// length, name characters (whitespace allowed inside only).
pub open spec fn spec_validate_asset_create(
    name: Seq<char>,
    name_bytes: nat,
    ticker: Seq<char>,
    ticker_bytes: nat,
) -> Result<(), AssetCreateError> {
    if ticker_bytes > TICKER_LEN {
        Err(AssetCreateError::TickerTooLong)
    } else if !spec_valid_str_for_asset(ticker, false, true) {
        Err(AssetCreateError::TickerInvalid)
    } else if name_bytes > 255 {
        Err(AssetCreateError::NameTooLong)
    } else if !spec_valid_str_for_asset(name, true, false) {
        Err(AssetCreateError::NameInvalid)
    } else {
        Ok(())
    }
}

/// Decides whether an asset may be created with the given name and ticker;
/// the first violated rule names the error.
pub fn validate_asset_create(name: &str, ticker: &str) -> (r: Result<(), AssetCreateError>)
    ensures
        r == spec_validate_asset_create(
            name@,
            name.spec_bytes().len(),
            ticker@,
            ticker.spec_bytes().len(),
        ),
{
    if ticker.as_bytes().len() > TICKER_LEN {
        return Err(AssetCreateError::TickerTooLong);
    }
    if !is_valid_str_for_asset(ticker, false, true) {
        return Err(AssetCreateError::TickerInvalid);
    }
    if name.as_bytes().len() > 255 {
        return Err(AssetCreateError::NameTooLong);
    }
    if !is_valid_str_for_asset(name, true, false) {
        return Err(AssetCreateError::NameInvalid);
    }
    Ok(())
}

/// The 40-byte preimage from which a contract-created asset's identifier is
/// derived: the contract's hash followed by the asset id in big-endian
/// form.
pub open spec fn asset_hash_preimage(contract: Seq<u8>, id: u64) -> Seq<u8> {
    contract + spec_u64_to_be_bytes(id)
}

/// The identifier of the asset that a contract creates under a numeric id:
/// the blake3 digest of the contract's hash and the id.
pub fn derive_asset_hash(contract: &crate::hash::Hash, id: u64) -> (r: crate::hash::Hash)
    ensures
        r@ == blake3_of(asset_hash_preimage(contract@, id)),
{
    let cb = contract.as_bytes();
    let mut buf: Vec<u8> = Vec::new();
    let mut i: usize = 0;
    proof {
        assert(buf@ =~= contract@.subrange(0, 0));
    }
    while i < 32
        invariant
            i <= 32,
            contract@.len() == 32,
            buf@ == contract@.subrange(0, i as int),
        decreases 32 - i,
    {
        buf.push(cb[i]);
        proof {
            assert(contract@.subrange(0, i + 1) =~= contract@.subrange(0, i as int).push(
                contract@[i as int],
            ));
        }
        i += 1;
    }
    proof {
        assert(contract@.subrange(0, 32) =~= contract@);
    }
    let be = u64_to_be_bytes(id);
    let mut j: usize = 0;
    while j < be.len()
        invariant
            j <= be@.len(),
            be@ == spec_u64_to_be_bytes(id),
            buf@ == contract@ + be@.subrange(0, j as int),
        decreases be@.len() - j,
    {
        buf.push(be[j]);
        proof {
            assert(contract@ + be@.subrange(0, j + 1) =~= (contract@ + be@.subrange(
                0,
                j as int,
            )).push(be@[j as int]));
        }
        j += 1;
    }
    proof {
        assert(be@.subrange(0, be@.len() as int) =~= be@);
        assert(buf@ =~= asset_hash_preimage(contract@, id));
    }
    let digest = blake3_hash32(&buf);
    crate::hash::Hash::new(digest)
}

} // verus!
