//! The version of the store's format, which is stored with it.

use vstd::prelude::*;

use crate::bytes::{
    law_later_bytes_count_more, le_bytes, le_u64, le_value, lemma_le_bytes_of_le_value,
    lemma_le_value_of_eight, lemma_u64_fits_into_eight_bytes,
};
use crate::txpool::error::TxPoolError;

verus! {

/// Current on-disk format version of the transaction pool store.
///
/// Goes up by one whenever the structure of the store changes.
pub const DATABASE_FORMAT_VERSION: u64 = 0;

/// The key in the metadata table under which the format version is stored.
pub const FORMAT_VERSION_KEY: &'static str = "format_version";

/// What is stored as the format version of a store that this library writes.
pub open spec fn stamp() -> Seq<u8> {
    le_bytes(DATABASE_FORMAT_VERSION as nat, 8)
}

/// The eight bytes that a stored value is read as: what is missing is zero, what is too much is
/// left out.
pub open spec fn version_bytes(stored: Seq<u8>) -> Seq<u8> {
    Seq::new(8, |i: int| if i < stored.len() { stored[i] } else { 0u8 })
}

/// The version that a stored value is reported as.
pub open spec fn found_version(stored: Seq<u8>) -> nat {
    le_value(version_bytes(stored))
}

/// Whether a store with this value can be opened: an error names the version that was found.
pub open spec fn version_check(stored: Seq<u8>) -> Result<(), TxPoolError> {
    if stored.len() == 8 && le_value(stored) == DATABASE_FORMAT_VERSION {
        Ok(())
    } else {
        Err(
            TxPoolError::DbFormatVersionMismatch {
                expected: DATABASE_FORMAT_VERSION,
                found: found_version(stored) as u64,
            },
        )
    }
}

/// What is stored as the format version of a new store.
pub fn format_version_stamp() -> (bytes: Vec<u8>)
    ensures
        bytes@ == stamp(),
{
    crate::bytes::u64_le_bytes(DATABASE_FORMAT_VERSION)
}

/// Checks the format version that is stored in a store that was there before.
pub fn check_format_version(stored: &[u8]) -> (checked: Result<(), TxPoolError>)
    ensures
        checked == version_check(stored@),
{
    let mut bytes: Vec<u8> = Vec::new();
    while bytes.len() < 8
        invariant
            bytes@.len() <= 8,
            bytes@ == version_bytes(stored@).take(bytes@.len() as int),
        decreases 8 - bytes.len(),
    {
        let i: usize = bytes.len();
        bytes.push(if i < stored.len() { stored[i] } else { 0 });
        assert(bytes@ =~= version_bytes(stored@).take(i + 1));
    }
    assert(bytes@ =~= version_bytes(stored@));
    let found: u64 = le_u64(bytes.as_slice());
    proof {
        if stored@.len() == 8 {
            assert(version_bytes(stored@) =~= stored@);
        }
    }
    if found == DATABASE_FORMAT_VERSION && stored.len() == 8 {
        Ok(())
    } else {
        Err(
            TxPoolError::DbFormatVersionMismatch { expected: DATABASE_FORMAT_VERSION, found },
        )
    }
}

/// A store can be opened exactly where its stored version is what a new store is stamped with,
/// byte for byte.
pub proof fn law_only_the_stamp_is_accepted(stored: Seq<u8>)
    ensures
        version_check(stored) is Ok <==> stored == stamp(),
{
    lemma_u64_fits_into_eight_bytes(DATABASE_FORMAT_VERSION);
    if stored.len() == 8 {
        lemma_le_bytes_of_le_value(stored);
    }
}

/// Another version, written as a stamp is, is refused and reported as it is.
pub proof fn law_other_versions_are_reported(version: u64)
    requires
        version != DATABASE_FORMAT_VERSION,
    ensures
        version_check(le_bytes(version as nat, 8)) == Err::<(), TxPoolError>(
            TxPoolError::DbFormatVersionMismatch {
                expected: DATABASE_FORMAT_VERSION,
                found: version,
            },
        ),
{
    let stored = le_bytes(version as nat, 8);
    lemma_u64_fits_into_eight_bytes(version);
    assert(version_bytes(stored) =~= stored);
}

/// A stored value of any other length is refused, and reported as the number that its bytes stand
/// for, or its first eight where there are more.
pub proof fn law_malformed_versions_are_reported(stored: Seq<u8>)
    requires
        stored.len() != 8,
    ensures
        version_check(stored) matches Err(TxPoolError::DbFormatVersionMismatch { expected, found })
            && expected == 0 && found == le_value(
            if stored.len() < 8 {
                stored
            } else {
                stored.take(8)
            },
        ),
{
    let kept = if stored.len() < 8 {
        stored
    } else {
        stored.take(8)
    };
    let zeros = Seq::new((8 - kept.len()) as nat, |i: int| 0u8);
    assert(version_bytes(stored) =~= kept + zeros);
    law_later_bytes_count_more(kept, zeros);
    lemma_zeros(zeros);
    lemma_le_value_of_eight(version_bytes(stored));
    assert(vstd::arithmetic::power::pow(256, kept.len()) * 0 == 0) by (nonlinear_arith);
}

proof fn lemma_zeros(zeros: Seq<u8>)
    requires
        forall|i: int| 0 <= i < zeros.len() ==> zeros[i] == 0,
    ensures
        le_value(zeros) == 0,
    decreases zeros.len(),
{
    if zeros.len() > 0 {
        lemma_zeros(zeros.drop_first());
    }
}

/// The stamp is the number zero in eight bytes.
pub proof fn law_stamp_is_the_version()
    ensures
        stamp().len() == 8,
        le_value(stamp()) == 0,
        DATABASE_FORMAT_VERSION == 0,
        FORMAT_VERSION_KEY@ == "format_version"@,
{
    lemma_u64_fits_into_eight_bytes(DATABASE_FORMAT_VERSION);
}

} // verus!
