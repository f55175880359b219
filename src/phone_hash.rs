use std::collections::HashMap;

use vstd::prelude::*;
use vstd::std_specs::hash::group_hash_axioms;
use vstd::string::StringSliceAdditionalSpecFns;

use crate::common::{
    decode_record, info_result_view, parse_record_data, saturate, size_sum,
    validate_phone_no, CardType, ErrorKind, InfoView, PhoneLookup, PhoneNoInfo, PhoneStats,
    RecordView,
};
use crate::database::{
    db_find, entry_for, lemma_entry_for_found, parse_database, sorted_strictly, DbModel, Index,
    RawDatabase,
};

verus! {

broadcast use group_hash_axioms;

/// Bytes that one entry of the hash table is estimated to take in memory.
pub const HASH_ENTRY_MEM: usize = 216;

/// A record decoded ahead of time, with its carrier code.
#[derive(Debug)]
struct PhoneRecord {
    province: String,
    city: String,
    zip_code: String,
    area_code: String,
    card_type: u8,
}

impl PhoneRecord {
    spec fn record_view(self) -> RecordView {
        RecordView {
            province: self.province@,
            city: self.city@,
            zip_code: self.zip_code@,
            area_code: self.area_code@,
        }
    }

    /// This is the decoded record of entry `e`.
    spec fn holds_entry(self, records: Seq<u8>, e: Index) -> bool {
        &&& decode_record(records, e.records_offset as int) == Ok::<RecordView, ErrorKind>(
            self.record_view(),
        )
        &&& self.card_type == e.card_type
    }
}

/// Every entry's record decodes.
pub open spec fn all_records_decode(m: DbModel) -> bool {
    forall|i: int|
        0 <= i < m.index.len() ==> (decode_record(
            m.records,
            (#[trigger] m.index[i]).records_offset as int,
        ) is Ok)
}

/// The hash strategy: every record is decoded once, at load time, into a
/// table keyed by prefix.
pub struct PhoneDataHash {
    version: String,
    phone_map: HashMap<i32, PhoneRecord>,
    model: Ghost<DbModel>,
}

/// Figures of the hash table.
#[derive(Debug, Clone)]
pub struct HashMapStats {
    pub total_entries: usize,
    pub version: String,
}

impl View for PhoneDataHash {
    type V = DbModel;

    closed spec fn view(&self) -> DbModel {
        self.model@
    }
}

impl PhoneDataHash {
    #[verifier::type_invariant]
    spec fn inv(self) -> bool {
        let m = self.model@;
        &&& sorted_strictly(m.index)
        &&& self.version@ == m.version
        &&& self.phone_map@.len() == m.index.len()
        &&& forall|p: i32| #[trigger]
            self.phone_map@.contains_key(p) ==> exists|j: int|
                0 <= j < m.index.len() && (#[trigger] m.index[j]).phone_no_prefix == p
        &&& forall|j: int|
            0 <= j < m.index.len() ==> self.phone_map@.contains_key(
                (#[trigger] m.index[j]).phone_no_prefix,
            ) && self.phone_map@[m.index[j].phone_no_prefix].holds_entry(m.records, m.index[j])
    }

    /// Loads the database from the whole contents of its file and decodes
    /// every record; a record that does not decode fails the load.
    pub fn new(data: &[u8]) -> (r: Result<PhoneDataHash, ErrorKind>)
        ensures
            match r {
                Ok(h) => parse_database(data@) == Ok::<DbModel, ErrorKind>(h@) && all_records_decode(
                    h@,
                ),
                Err(e) => parse_database(data@) == Err::<DbModel, ErrorKind>(e) || (parse_database(
                    data@,
                ) is Ok && !all_records_decode(parse_database(data@)->Ok_0) && e
                    == ErrorKind::InvalidPhoneDatabase),
            },
    {
        let db = RawDatabase::parse(data)?;
        let ghost m = db@;
        let mut phone_map: HashMap<i32, PhoneRecord> = HashMap::new();
        let mut i: usize = 0;
        while i < db.index.len()
            invariant
                m == db@,
                parse_database(data@) == Ok::<DbModel, ErrorKind>(m),
                sorted_strictly(m.index),
                i <= m.index.len(),
                phone_map@.len() == i,
                forall|p: i32| #[trigger]
                    phone_map@.contains_key(p) ==> exists|j: int|
                        0 <= j < i && (#[trigger] m.index[j]).phone_no_prefix == p,
                forall|j: int|
                    0 <= j < i ==> phone_map@.contains_key((#[trigger] m.index[j]).phone_no_prefix)
                        && phone_map@[m.index[j].phone_no_prefix].holds_entry(m.records, m.index[j]),
                forall|j: int|
                    0 <= j < i ==> (decode_record(
                        m.records,
                        (#[trigger] m.index[j]).records_offset as int,
                    ) is Ok),
            decreases m.index.len() - i,
        {
            let e = db.index[i];
            let decoded = if e.records_offset < 0 {
                Err(ErrorKind::InvalidPhoneDatabase)
            } else {
                parse_record_data(db.records.as_slice(), e.records_offset as usize)
            };
            let record = match decoded {
                Ok(record) => record,
                Err(err) => {
                    assert(!all_records_decode(m) && err == ErrorKind::InvalidPhoneDatabase) by {
                        assert(decode_record(m.records, m.index[i as int].records_offset as int)
                            is Err);
                    }
                    assert(parse_database(data@) == Ok::<DbModel, ErrorKind>(m));
                    return Err(err);
                },
            };
            proof {
                assert forall|j: int| 0 <= j < i implies (#[trigger] m.index[j]).phone_no_prefix
                    != e.phone_no_prefix by {
                    assert(m.index[j].phone_no_prefix < m.index[i as int].phone_no_prefix);
                }
                assert(!phone_map@.contains_key(e.phone_no_prefix));
            }
            phone_map.insert(
                e.phone_no_prefix,
                PhoneRecord {
                    province: record.province,
                    city: record.city,
                    zip_code: record.zip_code,
                    area_code: record.area_code,
                    card_type: e.card_type,
                },
            );
            proof {
                assert forall|p: i32| #[trigger] phone_map@.contains_key(p) implies exists|j: int|
                    0 <= j < i + 1 && (#[trigger] m.index[j]).phone_no_prefix == p by {
                    if p == e.phone_no_prefix {
                        assert(m.index[i as int].phone_no_prefix == p);
                    }
                }
            }
            i = i + 1;
        }
        Ok(PhoneDataHash { version: db.version, phone_map, model: Ghost(m) })
    }

    /// Looks up one number in the table.
    pub fn find(&self, no: &str) -> (r: Result<PhoneNoInfo, ErrorKind>)
        ensures
            info_result_view(r) == db_find(self@, no.spec_bytes()),
    {
        proof {
            use_type_invariant(self);
        }
        let prefix = validate_phone_no(no)?;
        let ghost m = self.model@;
        match self.phone_map.get(&prefix) {
            Some(record) => {
                let ghost j = choose|j: int|
                    0 <= j < m.index.len() && (#[trigger] m.index[j]).phone_no_prefix == prefix;
                proof {
                    lemma_entry_for_found(m.index, prefix, j);
                }
                let card = CardType::from_u8(record.card_type)?;
                Ok(
                    PhoneNoInfo {
                        province: record.province.clone(),
                        city: record.city.clone(),
                        zip_code: record.zip_code.clone(),
                        area_code: record.area_code.clone(),
                        card_type: card.get_description(),
                    },
                )
            },
            None => {
                proof {
                    if entry_for(m.index, prefix) is Some {
                        let j = choose|j: int|
                            0 <= j < m.index.len() && (#[trigger] m.index[j]).phone_no_prefix
                                == prefix;
                        assert(self.phone_map@.contains_key(m.index[j].phone_no_prefix));
                    }
                }
                Err(ErrorKind::NotFound)
            },
        }
    }

    /// The number of entries and the version.
    pub fn stats(&self) -> (r: HashMapStats)
        ensures
            r.total_entries == self@.index.len(),
            r.version@ == self@.version,
    {
        proof {
            use_type_invariant(self);
        }
        HashMapStats { total_entries: self.phone_map.len(), version: self.version.clone() }
    }
}

impl PhoneLookup for PhoneDataHash {
    open spec fn lookup_spec(&self, no: Seq<u8>) -> Result<InfoView, ErrorKind> {
        db_find(self@, no)
    }

    fn find(&self, no: &str) -> (r: Result<PhoneNoInfo, ErrorKind>) {
        PhoneDataHash::find(self, no)
    }
}

impl PhoneStats for PhoneDataHash {
    open spec fn entries_spec(&self) -> nat {
        self@.index.len()
    }

    open spec fn version_spec(&self) -> Seq<char> {
        self@.version
    }

    open spec fn memory_spec(&self) -> int {
        saturate(self@.index.len() * HASH_ENTRY_MEM)
    }

    fn total_entries(&self) -> (r: usize) {
        proof {
            use_type_invariant(self);
        }
        self.phone_map.len()
    }

    fn version(&self) -> (r: &str) {
        proof {
            use_type_invariant(self);
        }
        self.version.as_str()
    }

    fn memory_usage_bytes(&self) -> (r: usize) {
        proof {
            use_type_invariant(self);
        }
        size_sum(0, self.phone_map.len(), HASH_ENTRY_MEM)
    }
}

} // verus!
