use vstd::prelude::*;
use vstd::string::StringSliceAdditionalSpecFns;

use crate::common::{
    info_result_view, saturate, size_sum, ErrorKind, InfoView, PhoneLookup, PhoneNoInfo,
    PhoneStats,
};
use crate::binary_search::INDEX_ENTRY_MEM;
use crate::database::{db_find, parse_database, sorted_strictly, DbModel, RawDatabase};

verus! {

/// The sorted-index strategy in the variant tuned for batches of queries:
/// the same binary search over the same index.
pub struct PhoneDataSimd {
    db: RawDatabase,
}

impl View for PhoneDataSimd {
    type V = DbModel;

    closed spec fn view(&self) -> DbModel {
        self.db@
    }
}

impl PhoneDataSimd {
    #[verifier::type_invariant]
    spec fn inv(self) -> bool {
        sorted_strictly(self.db.index@)
    }

    /// Loads the database from the whole contents of its file.
    pub fn new(data: &[u8]) -> (r: Result<PhoneDataSimd, ErrorKind>)
        ensures
            match r {
                Ok(d) => parse_database(data@) == Ok::<DbModel, ErrorKind>(d@),
                Err(e) => parse_database(data@) == Err::<DbModel, ErrorKind>(e),
            },
    {
        let db = RawDatabase::parse(data)?;
        Ok(PhoneDataSimd { db })
    }

    /// Looks up one number by binary search.
    pub fn find(&self, no: &str) -> (r: Result<PhoneNoInfo, ErrorKind>)
        ensures
            info_result_view(r) == db_find(self@, no.spec_bytes()),
    {
        proof {
            use_type_invariant(self);
        }
        self.db.find(no)
    }

    /// Looks up one number; meant for runs of queries, and answering as
    /// `find` does.
    pub fn find_with_prefetch(&self, no: &str) -> (r: Result<PhoneNoInfo, ErrorKind>)
        ensures
            info_result_view(r) == db_find(self@, no.spec_bytes()),
    {
        proof {
            use_type_invariant(self);
        }
        self.db.find(no)
    }

    /// Looks up each number on its own, in order.
    pub fn find_batch(&self, phones: &[&str]) -> (r: Vec<Result<PhoneNoInfo, ErrorKind>>)
        ensures
            r@.len() == phones@.len(),
            forall|i: int|
                0 <= i < phones@.len() ==> info_result_view(#[trigger] r@[i]) == db_find(
                    self@,
                    phones@[i].spec_bytes(),
                ),
    {
        PhoneLookup::find_batch(self, phones)
    }
}

impl PhoneLookup for PhoneDataSimd {
    open spec fn lookup_spec(&self, no: Seq<u8>) -> Result<InfoView, ErrorKind> {
        db_find(self@, no)
    }

    fn find(&self, no: &str) -> (r: Result<PhoneNoInfo, ErrorKind>) {
        PhoneDataSimd::find(self, no)
    }
}

impl PhoneStats for PhoneDataSimd {
    open spec fn entries_spec(&self) -> nat {
        self@.index.len()
    }

    open spec fn version_spec(&self) -> Seq<char> {
        self@.version
    }

    open spec fn memory_spec(&self) -> int {
        saturate(self@.records.len() + self@.index.len() * INDEX_ENTRY_MEM)
    }

    fn total_entries(&self) -> (r: usize) {
        self.db.index.len()
    }

    fn version(&self) -> (r: &str) {
        self.db.version.as_str()
    }

    fn memory_usage_bytes(&self) -> (r: usize) {
        size_sum(self.db.records.len(), self.db.index.len(), INDEX_ENTRY_MEM)
    }
}

} // verus!
