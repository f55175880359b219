use vstd::prelude::*;
use vstd::string::StringSliceAdditionalSpecFns;

use crate::binary_search::INDEX_ENTRY_MEM;
use crate::common::{
    info_result_view, phone_prefix, saturate, size_sum, validate_phone_no, ErrorKind, InfoView,
    PhoneLookup, PhoneNoInfo, PhoneStats,
};
use crate::database::{
    db_find, entry_for, lemma_entry_for_found, parse_database, resolve_index_entry, search_index,
    sorted_strictly, DbModel, RawDatabase,
};

verus! {

/// What std's default hasher (SipHash with fixed keys, as `DefaultHasher::new`
/// builds it) returns for the pair `(item, seed)`.
pub uninterp spec fn seeded_hash(item: i32, seed: u32) -> u64;

/// Relies on `BuildHasher::hash_one` over `BuildHasherDefault<DefaultHasher>`:
/// it hashes `item`, then `seed`, into a fresh default hasher and returns
/// `finish`, which depends on the two values alone.
#[verifier::external_body]
fn hash_with_seed(item: i32, seed: u32) -> (r: u64)
    ensures
        r == seeded_hash(item, seed),
{
    std::hash::BuildHasher::hash_one(
        &std::hash::BuildHasherDefault::<std::collections::hash_map::DefaultHasher>::default(),
        (item, seed),
    )
}

/// Whether bit `p` of the bit array is set.
pub open spec fn bit_is_set(bits: Seq<u64>, p: int) -> bool {
    bits[p / 64] & (1u64 << ((p % 64) as u64)) != 0
}

/// The bit that hash function `i` picks for `item` in an array of `n` words.
pub open spec fn bit_position(item: i32, i: u32, n: nat) -> int {
    (seeded_hash(item, i) % (n * 64) as u64) as int
}

/// A bloom filter over 32-bit prefixes: a bit array and a number of hash
/// functions. It never reports an inserted item absent.
pub struct BloomFilter {
    bits: Vec<u64>,
    hash_count: u32,
    item_count: usize,
    members: Ghost<Set<i32>>,
}

impl View for BloomFilter {
    type V = Set<i32>;

    /// The items inserted so far.
    closed spec fn view(&self) -> Set<i32> {
        self.members@
    }
}

impl BloomFilter {
    /// Every hash function picks a set bit for `item`.
    pub closed spec fn may_contain(&self, item: i32) -> bool {
        forall|i: u32|
            i < self.hash_count ==> #[trigger] bit_is_set(
                self.bits@,
                bit_position(item, i, self.bits@.len()),
            )
    }

    /// How many items were inserted.
    pub closed spec fn count(&self) -> nat {
        self.item_count as nat
    }

    /// How many bits the array holds.
    pub closed spec fn bit_count(&self) -> nat {
        self.bits@.len() * 64
    }

    /// How many hash functions pick bits for an item.
    pub closed spec fn hash_functions(&self) -> nat {
        self.hash_count as nat
    }

    /// The array has at least one word and its bit positions fit the
    /// integer types, and every inserted item may be contained.
    pub closed spec fn wf(&self) -> bool {
        &&& 1 <= self.bits@.len()
        &&& self.bits@.len() * 64 <= u64::MAX
        &&& self.bits@.len() * 64 <= usize::MAX
        &&& forall|x: i32| #[trigger] self.members@.contains(x) ==> self.may_contain(x)
    }

    /// An empty filter of `bit_count` bits, rounded up to whole 64-bit
    /// words (at least one), with `hash_count` hash functions.
    pub fn with_size(bit_count: usize, hash_count: u32) -> (r: BloomFilter)
        requires
            bit_count <= usize::MAX - 63,
        ensures
            r.wf(),
            r@ == Set::<i32>::empty(),
            r.count() == 0,
            r.hash_functions() == hash_count,
            r.bit_count() == 64 * (if bit_count == 0 { 1 } else { (bit_count + 63) / 64 }),
    {
        let mut words = (bit_count + 63) / 64;
        if words == 0 {
            words = 1;
        }
        let bits = vec![0u64; words];
        BloomFilter { bits, hash_count, item_count: 0, members: Ghost(Set::empty()) }
    }

    /// The bit that hash function `i` picks for `item`.
    fn position(&self, item: i32, i: u32) -> (r: usize)
        requires
            self.wf(),
        ensures
            r == bit_position(item, i, self.bits@.len()),
            r < self.bits@.len() * 64,
    {
        let h = hash_with_seed(item, i);
        (h % (self.bits.len() as u64 * 64)) as usize
    }

    /// Adds `item`.
    pub fn insert(&mut self, item: i32)
        requires
            old(self).wf(),
            old(self).count() < usize::MAX,
        ensures
            final(self).wf(),
            final(self)@ == old(self)@.insert(item),
            final(self).count() == old(self).count() + 1,
            final(self).hash_functions() == old(self).hash_functions(),
            final(self).bit_count() == old(self).bit_count(),
            forall|x: i32| old(self).may_contain(x) ==> #[trigger] final(self).may_contain(x),
    {
        let ghost old_bits = self.bits@;
        let mut i: u32 = 0;
        while i < self.hash_count
            invariant
                self.bits@.len() == old_bits.len(),
                1 <= old_bits.len(),
                old_bits.len() * 64 <= u64::MAX,
                old_bits.len() * 64 <= usize::MAX,
                old(self).wf(),
                self.hash_count == old(self).hash_count,
                self.item_count == old(self).item_count,
                self.members == old(self).members,
                old(self).bits@ == old_bits,
                forall|p: int|
                    0 <= p < old_bits.len() * 64 && bit_is_set(old_bits, p) ==> #[trigger] bit_is_set(
                        self.bits@,
                        p,
                    ),
                forall|k: u32|
                    k < i ==> #[trigger] bit_is_set(
                        self.bits@,
                        bit_position(item, k, old_bits.len()),
                    ),
            decreases self.hash_count - i,
        {
            let bit_index = self.position(item, i);
            let array_index = bit_index / 64;
            let bit_offset = bit_index % 64;
            let ghost before = self.bits@;
            let w = self.bits[array_index];
            let nw = w | (1u64 << bit_offset as u64);
            self.bits[array_index] = nw;
            proof {
                assert forall|p: int|
                    0 <= p < old_bits.len() * 64 && bit_is_set(before, p) implies #[trigger] bit_is_set(
                    self.bits@,
                    p,
                ) by {
                    if p / 64 == array_index {
                        let m = 1u64 << ((p % 64) as u64);
                        assert((w | (1u64 << bit_offset as u64)) & m != 0) by (bit_vector)
                            requires
                                w & m != 0,
                        ;
                    }
                }
                assert(nw & (1u64 << bit_offset as u64) != 0) by (bit_vector)
                    requires
                        nw == w | (1u64 << bit_offset as u64),
                        bit_offset < 64,
                ;
                assert forall|k: u32| k < i + 1 implies #[trigger] bit_is_set(
                    self.bits@,
                    bit_position(item, k, old_bits.len()),
                ) by {
                    if k < i {
                        assert(bit_is_set(before, bit_position(item, k, old_bits.len())));
                    }
                }
            }
            i = i + 1;
        }
        self.item_count = self.item_count + 1;
        self.members = Ghost(self.members@.insert(item));
        proof {
            assert forall|k: u32| k < self.hash_count implies #[trigger] bit_is_set(
                self.bits@,
                bit_position(item, k, self.bits@.len()),
            ) by {
                assert(bit_is_set(self.bits@, bit_position(item, k, old_bits.len())));
            }
            assert forall|x: i32| old(self).may_contain(x) implies #[trigger] self.may_contain(x) by {
                assert forall|k: u32| k < self.hash_count implies #[trigger] bit_is_set(
                    self.bits@,
                    bit_position(x, k, self.bits@.len()),
                ) by {
                    assert(bit_is_set(old_bits, bit_position(x, k, old_bits.len())));
                }
            }
        }
    }

    /// Whether `item` may have been inserted: false only for an item that
    /// never was.
    pub fn contains(&self, item: i32) -> (r: bool)
        requires
            self.wf(),
        ensures
            r == self.may_contain(item),
            self@.contains(item) ==> r,
    {
        let mut i: u32 = 0;
        while i < self.hash_count
            invariant
                self.wf(),
                forall|k: u32|
                    k < i ==> #[trigger] bit_is_set(
                        self.bits@,
                        bit_position(item, k, self.bits@.len()),
                    ),
            decreases self.hash_count - i,
        {
            let bit_index = self.position(item, i);
            let array_index = bit_index / 64;
            let bit_offset = bit_index % 64;
            if self.bits[array_index] & (1u64 << bit_offset as u64) == 0 {
                assert(!bit_is_set(self.bits@, bit_position(item, i, self.bits@.len())));
                return false;
            }
            i = i + 1;
        }
        true
    }

    /// Bits in the array.
    pub fn bit_len(&self) -> (r: usize)
        requires
            self.wf(),
        ensures
            r == self.bit_count(),
    {
        self.bits.len() * 64
    }

    /// Hash functions per item.
    pub fn hash_count(&self) -> (r: u32)
        ensures
            r == self.hash_functions(),
    {
        self.hash_count
    }

    /// Items inserted.
    pub fn item_count(&self) -> (r: usize)
        ensures
            r == self.count(),
    {
        self.item_count
    }
}

/// A well-formed filter reports every inserted item as possibly present:
/// it has no false negatives.
pub proof fn lemma_no_false_negatives(f: BloomFilter, x: i32)
    requires
        f.wf(),
        f@.contains(x),
    ensures
        f.may_contain(x),
{
}

/// Bits of the filter that `PhoneDataBloom::new` builds: the size that a
/// 1% false-positive rate asks for over 517,258 expected prefixes.
pub const DEFAULT_BLOOM_BITS: usize = 2478974;

/// Hash functions of the filter that `PhoneDataBloom::new` builds.
pub const DEFAULT_BLOOM_HASHES: u32 = 3;

/// What a lookup went through.
#[derive(Debug, Clone, Copy, PartialEq, Eq, Structural)]
pub struct LookupStats {
    /// The filter let the prefix through.
    pub bloom_positive: bool,
    /// The number was found.
    pub found: bool,
}

/// The bloom strategy: a bloom filter over every prefix turns most absent
/// prefixes away; what it lets through is settled by binary search.
pub struct PhoneDataBloom {
    db: RawDatabase,
    bloom_filter: BloomFilter,
}

impl View for PhoneDataBloom {
    type V = DbModel;

    closed spec fn view(&self) -> DbModel {
        self.db@
    }
}

impl PhoneDataBloom {
    #[verifier::type_invariant]
    spec fn inv(self) -> bool {
        &&& sorted_strictly(self.db.index@)
        &&& self.bloom_filter.wf()
        &&& forall|j: int|
            0 <= j < self.db.index@.len() ==> self.bloom_filter@.contains(
                (#[trigger] self.db.index@[j]).phone_no_prefix,
            )
    }

    /// The filter.
    pub closed spec fn filter(&self) -> BloomFilter {
        self.bloom_filter
    }

    /// Loads the database from the whole contents of its file, with a
    /// filter of the default size.
    pub fn new(data: &[u8]) -> (r: Result<PhoneDataBloom, ErrorKind>)
        ensures
            match r {
                Ok(d) => {
                    &&& parse_database(data@) == Ok::<DbModel, ErrorKind>(d@)
                    &&& d.filter().wf()
                    &&& forall|j: int|
                        0 <= j < d@.index.len() ==> d.filter()@.contains(
                            (#[trigger] d@.index[j]).phone_no_prefix,
                        )
                },
                Err(e) => parse_database(data@) == Err::<DbModel, ErrorKind>(e),
            },
    {
        PhoneDataBloom::with_filter_size(data, DEFAULT_BLOOM_BITS, DEFAULT_BLOOM_HASHES)
    }

    /// Loads the database from the whole contents of its file, with a
    /// filter of `bit_count` bits and `hash_count` hash functions, filled
    /// with every prefix of the index.
    pub fn with_filter_size(data: &[u8], bit_count: usize, hash_count: u32) -> (r: Result<
        PhoneDataBloom,
        ErrorKind,
    >)
        requires
            bit_count <= usize::MAX - 63,
        ensures
            match r {
                Ok(d) => {
                    &&& parse_database(data@) == Ok::<DbModel, ErrorKind>(d@)
                    &&& d.filter().wf()
                    &&& forall|j: int|
                        0 <= j < d@.index.len() ==> d.filter()@.contains(
                            (#[trigger] d@.index[j]).phone_no_prefix,
                        )
                    &&& d.filter().count() == d@.index.len()
                    &&& d.filter().hash_functions() == hash_count
                },
                Err(e) => parse_database(data@) == Err::<DbModel, ErrorKind>(e),
            },
    {
        let db = RawDatabase::parse(data)?;
        let mut filter = BloomFilter::with_size(bit_count, hash_count);
        let mut i: usize = 0;
        while i < db.index.len()
            invariant
                i <= db.index@.len(),
                filter.wf(),
                filter.count() == i,
                filter.hash_functions() == hash_count,
                forall|j: int| 0 <= j < i ==> filter@.contains((#[trigger] db.index@[j]).phone_no_prefix),
            decreases db.index@.len() - i,
        {
            filter.insert(db.index[i].phone_no_prefix);
            i = i + 1;
        }
        Ok(PhoneDataBloom { db, bloom_filter: filter })
    }

    /// Looks up a key that passed validation: the filter first, then
    /// binary search. Also says whether the filter let the key through.
    fn find_prefix(&self, prefix: i32) -> (r: (Result<PhoneNoInfo, ErrorKind>, bool))
        ensures
            r.1 == self.filter().may_contain(prefix),
            info_result_view(r.0) == match entry_for(self@.index, prefix) {
                None => Err(ErrorKind::NotFound),
                Some(e) => crate::database::resolve_entry(self@.records, e),
            },
    {
        proof {
            use_type_invariant(self);
        }
        if !self.bloom_filter.contains(prefix) {
            proof {
                if entry_for(self@.index, prefix) is Some {
                    let j = choose|j: int|
                        0 <= j < self.db.index@.len() && (#[trigger] self.db.index@[j]).phone_no_prefix
                            == prefix;
                    assert(self.bloom_filter@.contains(self.db.index@[j].phone_no_prefix));
                }
            }
            return (Err(ErrorKind::NotFound), false);
        }
        match search_index(&self.db.index, prefix) {
            Some(i) => {
                proof {
                    lemma_entry_for_found(self.db.index@, prefix, i as int);
                }
                (resolve_index_entry(&self.db.records, &self.db.index[i]), true)
            },
            None => (Err(ErrorKind::NotFound), true),
        }
    }

    /// Looks up one number; a prefix that the filter turns away is not
    /// found without a search.
    pub fn find(&self, no: &str) -> (r: Result<PhoneNoInfo, ErrorKind>)
        ensures
            info_result_view(r) == db_find(self@, no.spec_bytes()),
    {
        let prefix = validate_phone_no(no)?;
        self.find_prefix(prefix).0
    }

    /// Looks up each number on its own, in order.
    pub fn find_batch(&self, phones: &[&str]) -> (r: Vec<Result<PhoneNoInfo, ErrorKind>>)
        ensures
            r@.len() == phones@.len(),
            forall|i: int|
                0 <= i < phones@.len() ==> info_result_view(#[trigger] r@[i]) == db_find(
                    self@,
                    phones@[i].spec_bytes(),
                ),
    {
        PhoneLookup::find_batch(self, phones)
    }

    /// Looks up one number and reports whether the filter let its prefix
    /// through and whether it was found. A number without a key is not
    /// shown to the filter.
    pub fn find_with_stats(&self, no: &str) -> (r: (Result<PhoneNoInfo, ErrorKind>, LookupStats))
        ensures
            info_result_view(r.0) == db_find(self@, no.spec_bytes()),
            r.1.found == r.0 is Ok,
            r.1.bloom_positive == match phone_prefix(no.spec_bytes()) {
                Ok(p) => self.filter().may_contain(p),
                Err(_) => false,
            },
    {
        let prefix = match validate_phone_no(no) {
            Ok(p) => p,
            Err(e) => return (Err(e), LookupStats { bloom_positive: false, found: false }),
        };
        let (result, bloom_positive) = self.find_prefix(prefix);
        let found = result.is_ok();
        (result, LookupStats { bloom_positive, found })
    }

    /// The filter, for its figures.
    pub fn bloom_filter(&self) -> (r: &BloomFilter)
        ensures
            *r == self.filter(),
            r.wf(),
    {
        proof {
            use_type_invariant(self);
        }
        &self.bloom_filter
    }
}

impl PhoneLookup for PhoneDataBloom {
    open spec fn lookup_spec(&self, no: Seq<u8>) -> Result<InfoView, ErrorKind> {
        db_find(self@, no)
    }

    fn find(&self, no: &str) -> (r: Result<PhoneNoInfo, ErrorKind>) {
        PhoneDataBloom::find(self, no)
    }
}

impl PhoneStats for PhoneDataBloom {
    open spec fn entries_spec(&self) -> nat {
        self@.index.len()
    }

    open spec fn version_spec(&self) -> Seq<char> {
        self@.version
    }

    open spec fn memory_spec(&self) -> int {
        saturate(
            saturate(self@.records.len() + self@.index.len() * INDEX_ENTRY_MEM) + self.filter().bit_count()
                / 64 * 8,
        )
    }

    fn total_entries(&self) -> (r: usize) {
        self.db.index.len()
    }

    fn version(&self) -> (r: &str) {
        self.db.version.as_str()
    }

    fn memory_usage_bytes(&self) -> (r: usize) {
        proof {
            use_type_invariant(self);
        }
        let base = size_sum(self.db.records.len(), self.db.index.len(), INDEX_ENTRY_MEM);
        size_sum(base, self.bloom_filter.bit_len() / 64, 8)
    }
}

} // verus!
