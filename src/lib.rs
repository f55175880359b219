//! Resolves the leading digits of a telephone number to the region and
//! carrier recorded for them in a compact, read-only binary database.
//!
//! The file is read by [`database::RawDatabase::parse`]; three strategies
//! answer lookups over it (binary search in [`PhoneData`] and
//! [`PhoneDataSimd`], a hash table in [`PhoneDataHash`], a bloom filter in
//! front of binary search in [`PhoneDataBloom`]), and [`cache::CachedLookup`]
//! keeps recent answers of any of them.

pub mod common;
pub mod database;
pub mod binary_search;
pub mod phone_simd;
pub mod phone_hash;
pub mod phone_bloom;
pub mod cache;
pub mod laws;

pub use binary_search::PhoneData;
pub use cache::CachedLookup;
pub use common::{
    build_phone_info, four_u8_to_i32, parse_record_data, validate_phone_no, CardType, ErrorKind,
    ParsedRecord, PhoneLookup, PhoneNoInfo, PhoneStats,
};
pub use database::{DatabaseHeader, Index, RawDatabase};
pub use phone_bloom::{BloomFilter, LookupStats, PhoneDataBloom};
pub use phone_hash::{HashMapStats, PhoneDataHash};
pub use phone_simd::PhoneDataSimd;
