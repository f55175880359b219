use vstd::prelude::*;

use crate::binary_search::PhoneData;
use crate::common::{is_digit, phone_prefix, ErrorKind, InfoView, PhoneLookup, PREFIX_LEN};
use crate::database::{db_find, parse_database, resolve_entry, DbModel};
use crate::phone_bloom::PhoneDataBloom;
use crate::phone_hash::PhoneDataHash;
use crate::phone_simd::PhoneDataSimd;

verus! {

/// All strategies loaded from the same file answer every number alike.
pub proof fn lemma_strategies_agree(
    data: Seq<u8>,
    no: Seq<u8>,
    sorted: PhoneData,
    simd: PhoneDataSimd,
    hash: PhoneDataHash,
    bloom: PhoneDataBloom,
)
    requires
        parse_database(data) == Ok::<DbModel, ErrorKind>(sorted@),
        parse_database(data) == Ok::<DbModel, ErrorKind>(simd@),
        parse_database(data) == Ok::<DbModel, ErrorKind>(hash@),
        parse_database(data) == Ok::<DbModel, ErrorKind>(bloom@),
    ensures
        sorted.lookup_spec(no) == simd.lookup_spec(no),
        sorted.lookup_spec(no) == hash.lookup_spec(no),
        sorted.lookup_spec(no) == bloom.lookup_spec(no),
{
}

/// A number of 8 to 11 bytes is answered as its first seven bytes are.
pub proof fn lemma_prefix_equivalence(m: DbModel, no: Seq<u8>)
    requires
        8 <= no.len() <= 11,
    ensures
        db_find(m, no) == db_find(m, no.subrange(0, PREFIX_LEN as int)),
{
    let short = no.subrange(0, PREFIX_LEN as int);
    assert(short.subrange(0, PREFIX_LEN as int) =~= no.subrange(0, PREFIX_LEN as int));
    assert forall|i: int| 0 <= i < PREFIX_LEN implies short[i] == no[i] by {}
    assert((forall|i: int| 0 <= i < PREFIX_LEN ==> is_digit(#[trigger] no[i])) == (forall|i: int|
        0 <= i < PREFIX_LEN ==> is_digit(#[trigger] short[i])));
    assert(phone_prefix(no) == phone_prefix(short));
}

/// A number shorter than 7 or longer than 11 bytes is refused for its
/// length, whatever the database.
pub proof fn lemma_length_refused(m: DbModel, no: Seq<u8>)
    requires
        no.len() < 7 || no.len() > 11,
    ensures
        db_find(m, no) == Err::<InfoView, ErrorKind>(ErrorKind::InvalidLength),
{
}

/// In a database whose every entry resolves, a number of 7 to 11 digits
/// is either found or not found; it is never refused.
pub proof fn lemma_digits_accepted(m: DbModel, no: Seq<u8>)
    requires
        7 <= no.len() <= 11,
        forall|i: int| 0 <= i < no.len() ==> is_digit(#[trigger] no[i]),
        forall|j: int| 0 <= j < m.index.len() ==> (resolve_entry(m.records, #[trigger] m.index[j]) is Ok),
    ensures
        db_find(m, no) is Ok || db_find(m, no) == Err::<InfoView, ErrorKind>(ErrorKind::NotFound),
{
    assert(forall|i: int| 0 <= i < PREFIX_LEN ==> is_digit(#[trigger] no[i]));
    let p = phone_prefix(no)->Ok_0;
    if exists|i: int| 0 <= i < m.index.len() && (#[trigger] m.index[i]).phone_no_prefix == p {
        let j = choose|i: int| 0 <= i < m.index.len() && (#[trigger] m.index[i]).phone_no_prefix == p;
        assert(resolve_entry(m.records, m.index[j]) is Ok);
    }
}

} // verus!
