use vstd::prelude::*;
use vstd::slice::{slice_subrange, slice_to_vec};
use vstd::string::StringSliceAdditionalSpecFns;
use vstd::utf8::*;

use crate::common::{
    build_phone_info, decode_record, four_u8_to_i32, info_of, info_result_view, le_i32,
    parse_record_data, phone_prefix, ErrorKind, InfoView, PhoneNoInfo,
    HEADER_LEN,
};

verus! {

/// Length of one entry of the index region.
pub const INDEX_ENTRY_LEN: usize = 9;

/// Length of the version string at the start of the file.
pub const VERSION_LEN: usize = 4;

/// One entry of the index: a 7-digit prefix, the absolute file offset of
/// its record, and its carrier code.
#[derive(Debug, Clone, Copy, PartialEq, Eq, Structural)]
pub struct Index {
    pub phone_no_prefix: i32,
    pub records_offset: i32,
    pub card_type: u8,
}

impl Index {
    pub fn new(phone_no_prefix: i32, records_offset: i32, card_type: u8) -> (r: Index)
        ensures
            r == (Index { phone_no_prefix, records_offset, card_type }),
    {
        Index { phone_no_prefix, records_offset, card_type }
    }
}

/// The file header: the format version and where the index region starts.
#[derive(Debug, Clone)]
pub struct DatabaseHeader {
    pub version: String,
    pub index_offset: u64,
}

impl DatabaseHeader {
    pub fn new(version: String, index_offset: u64) -> (r: DatabaseHeader)
        ensures
            r.version == version,
            r.index_offset == index_offset,
    {
        DatabaseHeader { version, index_offset }
    }
}

/// The contents of a database file.
pub ghost struct DbModel {
    pub version: Seq<char>,
    pub records: Seq<u8>,
    pub index: Seq<Index>,
}

/// The unsigned 32-bit integer whose little-endian bytes are `b0 b1 b2 b3`.
pub open spec fn le_u32(b0: u8, b1: u8, b2: u8, b3: u8) -> int {
    b0 as int + 256 * b1 as int + 65536 * b2 as int + 16777216 * b3 as int
}

/// The index offset that a file's header gives.
pub open spec fn header_index_offset(data: Seq<u8>) -> int {
    le_u32(data[4], data[5], data[6], data[7])
}

/// The index entry that starts at byte `p` of `data`.
pub open spec fn entry_at(data: Seq<u8>, p: int) -> Index {
    Index {
        phone_no_prefix: le_i32(data[p], data[p + 1], data[p + 2], data[p + 3]) as i32,
        records_offset: le_i32(data[p + 4], data[p + 5], data[p + 6], data[p + 7]) as i32,
        card_type: data[p + 8],
    }
}

/// The entries of an index region that starts at `start`: every whole
/// 9-byte chunk up to the end of the file; a shorter tail is ignored.
pub open spec fn index_entries(data: Seq<u8>, start: int) -> Seq<Index> {
    Seq::new(
        ((data.len() - start) / INDEX_ENTRY_LEN as int) as nat,
        |k: int| entry_at(data, start + k * INDEX_ENTRY_LEN),
    )
}

/// Prefixes strictly ascending, so each prefix has at most one entry.
pub open spec fn sorted_strictly(index: Seq<Index>) -> bool {
    forall|a: int, b: int|
        0 <= a < b < index.len() ==> (#[trigger] index[a]).phone_no_prefix
            < (#[trigger] index[b]).phone_no_prefix
}

/// What loading a database file yields. It fails when the header is short,
/// the version is not UTF-8, the records region is cut short (or the index
/// offset points into the header), or the index is not strictly ascending.
pub open spec fn parse_database(data: Seq<u8>) -> Result<DbModel, ErrorKind> {
    if data.len() < HEADER_LEN {
        Err(ErrorKind::InvalidPhoneDatabase)
    } else {
        let version = data.subrange(0, VERSION_LEN as int);
        let off = header_index_offset(data);
        if !valid_utf8(version) || off < HEADER_LEN || off > data.len() {
            Err(ErrorKind::InvalidPhoneDatabase)
        } else {
            let index = index_entries(data, off);
            if sorted_strictly(index) {
                Ok(
                    DbModel {
                        version: decode_utf8(version),
                        records: data.subrange(HEADER_LEN as int, off),
                        index,
                    },
                )
            } else {
                Err(ErrorKind::InvalidPhoneDatabase)
            }
        }
    }
}

/// The entry for prefix `p`, if the index has one.
pub open spec fn entry_for(index: Seq<Index>, p: i32) -> Option<Index> {
    if exists|i: int| 0 <= i < index.len() && (#[trigger] index[i]).phone_no_prefix == p {
        Some(index[choose|i: int| 0 <= i < index.len() && (#[trigger] index[i]).phone_no_prefix == p])
    } else {
        None
    }
}

/// What an index entry resolves to: its record, decoded, with its carrier.
pub open spec fn resolve_entry(records: Seq<u8>, e: Index) -> Result<InfoView, ErrorKind> {
    match decode_record(records, e.records_offset as int) {
        Ok(rec) => info_of(rec, e.card_type),
        Err(err) => Err(err),
    }
}

/// What looking a number up in a database yields: the number's key is
/// checked, then searched, then its entry is resolved.
pub open spec fn db_find(m: DbModel, no: Seq<u8>) -> Result<InfoView, ErrorKind> {
    match phone_prefix(no) {
        Err(e) => Err(e),
        Ok(p) => match entry_for(m.index, p) {
            None => Err(ErrorKind::NotFound),
            Some(e) => resolve_entry(m.records, e),
        },
    }
}

/// A database file read into memory: its version, its records region and
/// its index, sorted by prefix.
pub struct RawDatabase {
    pub version: String,
    pub records: Vec<u8>,
    pub index: Vec<Index>,
}

impl View for RawDatabase {
    type V = DbModel;

    open spec fn view(&self) -> DbModel {
        DbModel { version: self.version@, records: self.records@, index: self.index@ }
    }
}

/// Reads the header of a database file.
pub fn read_header(data: &[u8]) -> (r: Result<DatabaseHeader, ErrorKind>)
    ensures
        match r {
            Ok(h) => {
                &&& data@.len() >= HEADER_LEN
                &&& valid_utf8(data@.subrange(0, VERSION_LEN as int))
                &&& h.version@ == decode_utf8(data@.subrange(0, VERSION_LEN as int))
                &&& h.index_offset == header_index_offset(data@)
            },
            Err(e) => {
                &&& e == ErrorKind::InvalidPhoneDatabase
                &&& (data@.len() < HEADER_LEN || !valid_utf8(data@.subrange(0, VERSION_LEN as int)))
            },
        },
{
    if data.len() < HEADER_LEN {
        return Err(ErrorKind::InvalidPhoneDatabase);
    }
    let version = match crate::common::decode_text(slice_subrange(data, 0, VERSION_LEN)) {
        Some(v) => v,
        None => return Err(ErrorKind::InvalidPhoneDatabase),
    };
    let off: u64 = data[4] as u64 + 256 * data[5] as u64 + 65536 * data[6] as u64 + 16777216
        * data[7] as u64;
    Ok(DatabaseHeader { version, index_offset: off })
}


/// Checks that the prefixes of `index` are strictly ascending.
fn is_sorted_strictly(index: &Vec<Index>) -> (r: bool)
    ensures
        r == sorted_strictly(index@),
{
    let mut k: usize = 1;
    if index.len() == 0 {
        return true;
    }
    while k < index.len()
        invariant
            1 <= k <= index@.len(),
            sorted_strictly(index@.subrange(0, k as int)),
        decreases index.len() - k,
    {
        if index[k - 1].phone_no_prefix >= index[k].phone_no_prefix {
            assert(!sorted_strictly(index@)) by {
                assert(index@[k - 1].phone_no_prefix >= index@[k as int].phone_no_prefix);
            }
            return false;
        }
        proof {
            let s = index@.subrange(0, k + 1);
            assert forall|a: int, b: int| 0 <= a < b < s.len() implies (#[trigger] s[a]).phone_no_prefix
                < (#[trigger] s[b]).phone_no_prefix by {
                let t = index@.subrange(0, k as int);
                if b < k {
                    assert(t[a] == s[a] && t[b] == s[b]);
                } else if a < k - 1 {
                    assert(t[a] == s[a] && t[k - 1] == s[k - 1]);
                }
            }
        }
        k = k + 1;
    }
    assert(index@.subrange(0, index@.len() as int) =~= index@);
    true
}

impl RawDatabase {
    /// Loads a database from the whole contents of its file.
    pub fn parse(data: &[u8]) -> (r: Result<RawDatabase, ErrorKind>)
        ensures
            match r {
                Ok(db) => parse_database(data@) == Ok::<DbModel, ErrorKind>(db@),
                Err(e) => parse_database(data@) == Err::<DbModel, ErrorKind>(e),
            },
    {
        let header = read_header(data)?;
        let len = data.len();
        if header.index_offset < HEADER_LEN as u64 || header.index_offset > len as u64 {
            return Err(ErrorKind::InvalidPhoneDatabase);
        }
        let off = header.index_offset as usize;
        let records = slice_to_vec(slice_subrange(data, HEADER_LEN, off));
        let mut index: Vec<Index> = Vec::new();
        let mut p: usize = off;
        let mut k: usize = 0;
        while len - p >= INDEX_ENTRY_LEN
            invariant
                len == data@.len(),
                off <= p <= len,
                p == off + k * INDEX_ENTRY_LEN,
                index@.len() == k,
                forall|j: int| 0 <= j < k ==> index@[j] == entry_at(data@, off + j * INDEX_ENTRY_LEN),
            decreases len - p,
        {
            let prefix = four_u8_to_i32(slice_subrange(data, p, p + 4));
            let offset = four_u8_to_i32(slice_subrange(data, p + 4, p + 8));
            let entry = Index { phone_no_prefix: prefix, records_offset: offset, card_type: data[p + 8] };
            index.push(entry);
            p = p + INDEX_ENTRY_LEN;
            k = k + 1;
        }
        proof {
            let r = len - p;
            assert((len - off) / 9 == k as int) by (nonlinear_arith)
                requires
                    len - off == 9 * k + r,
                    0 <= r < 9,
            ;
            assert(index@ =~= index_entries(data@, off as int));
        }
        if !is_sorted_strictly(&index) {
            return Err(ErrorKind::InvalidPhoneDatabase);
        }
        Ok(RawDatabase { version: header.version, records, index })
    }
}


/// Binary search for the entry with prefix `target`.
pub fn search_index(index: &Vec<Index>, target: i32) -> (r: Option<usize>)
    requires
        sorted_strictly(index@),
    ensures
        match r {
            Some(i) => i < index@.len() && index@[i as int].phone_no_prefix == target,
            None => forall|i: int| 0 <= i < index@.len() ==> (#[trigger] index@[i]).phone_no_prefix != target,
        },
{
    let mut left: usize = 0;
    let mut right: usize = index.len();
    while left < right
        invariant
            sorted_strictly(index@),
            left <= right <= index@.len(),
            forall|i: int| 0 <= i < left ==> (#[trigger] index@[i]).phone_no_prefix < target,
            forall|i: int| right <= i < index@.len() ==> (#[trigger] index@[i]).phone_no_prefix > target,
        decreases right - left,
    {
        let mid = left + (right - left) / 2;
        let p = index[mid].phone_no_prefix;
        if p == target {
            return Some(mid);
        } else if p > target {
            right = mid;
        } else {
            left = mid + 1;
        }
    }
    None
}

/// In a strictly ascending index, the entry at a position holding prefix
/// `p` is the entry for `p`.
pub proof fn lemma_entry_for_found(index: Seq<Index>, p: i32, i: int)
    requires
        sorted_strictly(index),
        0 <= i < index.len(),
        index[i].phone_no_prefix == p,
    ensures
        entry_for(index, p) == Some(index[i]),
{
    let j = choose|j: int| 0 <= j < index.len() && (#[trigger] index[j]).phone_no_prefix == p;
    if j < i {
        assert(index[j].phone_no_prefix < index[i].phone_no_prefix);
    } else if i < j {
        assert(index[i].phone_no_prefix < index[j].phone_no_prefix);
    }
}

/// Resolves an index entry against the records region: decodes its record
/// and names its carrier.
pub fn resolve_index_entry(records: &Vec<u8>, e: &Index) -> (r: Result<PhoneNoInfo, ErrorKind>)
    ensures
        info_result_view(r) == resolve_entry(records@, *e),
{
    if e.records_offset < 0 {
        return Err(ErrorKind::InvalidPhoneDatabase);
    }
    let record = parse_record_data(records.as_slice(), e.records_offset as usize)?;
    build_phone_info(&record, e.card_type)
}

impl RawDatabase {
    /// Looks a number up by binary search over the index.
    pub fn find(&self, no: &str) -> (r: Result<PhoneNoInfo, ErrorKind>)
        requires
            sorted_strictly(self.index@),
        ensures
            info_result_view(r) == db_find(self@, no.spec_bytes()),
    {
        let prefix = crate::common::validate_phone_no(no)?;
        match search_index(&self.index, prefix) {
            Some(i) => {
                proof {
                    lemma_entry_for_found(self.index@, prefix, i as int);
                }
                resolve_index_entry(&self.records, &self.index[i])
            },
            None => Err(ErrorKind::NotFound),
        }
    }
}

} // verus!
