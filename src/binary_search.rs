use vstd::prelude::*;
use vstd::string::StringSliceAdditionalSpecFns;

use crate::common::{
    info_result_view, saturate, size_sum, ErrorKind, InfoView, PhoneLookup, PhoneNoInfo,
    PhoneStats,
};
use crate::database::{db_find, parse_database, sorted_strictly, DbModel, RawDatabase};

verus! {

/// Bytes that one index entry takes in memory.
pub const INDEX_ENTRY_MEM: usize = 12;

/// The sorted-index strategy: binary search over the index, decoding the
/// record of the entry found.
pub struct PhoneData {
    db: RawDatabase,
}

impl View for PhoneData {
    type V = DbModel;

    closed spec fn view(&self) -> DbModel {
        self.db@
    }
}

impl PhoneData {
    #[verifier::type_invariant]
    spec fn inv(self) -> bool {
        sorted_strictly(self.db.index@)
    }

    /// Loads the database from the whole contents of its file.
    pub fn new(data: &[u8]) -> (r: Result<PhoneData, ErrorKind>)
        ensures
            match r {
                Ok(d) => parse_database(data@) == Ok::<DbModel, ErrorKind>(d@),
                Err(e) => parse_database(data@) == Err::<DbModel, ErrorKind>(e),
            },
    {
        let db = RawDatabase::parse(data)?;
        Ok(PhoneData { db })
    }

    /// Looks up one number by binary search.
    pub fn find(&self, no: &str) -> (r: Result<PhoneNoInfo, ErrorKind>)
        ensures
            info_result_view(r) == db_find(self@, no.spec_bytes()),
    {
        proof {
            use_type_invariant(self);
        }
        self.db.find(no)
    }
}

impl PhoneLookup for PhoneData {
    open spec fn lookup_spec(&self, no: Seq<u8>) -> Result<InfoView, ErrorKind> {
        db_find(self@, no)
    }

    fn find(&self, no: &str) -> (r: Result<PhoneNoInfo, ErrorKind>) {
        PhoneData::find(self, no)
    }
}

impl PhoneStats for PhoneData {
    open spec fn entries_spec(&self) -> nat {
        self@.index.len()
    }

    open spec fn version_spec(&self) -> Seq<char> {
        self@.version
    }

    open spec fn memory_spec(&self) -> int {
        saturate(self@.records.len() + self@.index.len() * INDEX_ENTRY_MEM)
    }

    fn total_entries(&self) -> (r: usize) {
        self.db.index.len()
    }

    fn version(&self) -> (r: &str) {
        self.db.version.as_str()
    }

    fn memory_usage_bytes(&self) -> (r: usize) {
        size_sum(self.db.records.len(), self.db.index.len(), INDEX_ENTRY_MEM)
    }
}

} // verus!
