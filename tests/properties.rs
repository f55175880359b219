use phone_data::database::read_header;
use phone_data::{
    build_phone_info, parse_record_data, BloomFilter, CardType, CachedLookup, ErrorKind, ParsedRecord,
    PhoneData, PhoneDataBloom, PhoneDataHash, PhoneDataSimd, PhoneLookup, PhoneNoInfo, PhoneStats,
    RawDatabase,
};

fn file_of(records: &[&[u8]], entries: &[(i32, i32, u8)]) -> Vec<u8> {
    let mut region = Vec::new();
    for r in records.iter() {
        region.extend_from_slice(r);
        region.push(0);
    }
    let mut data = b"v001".to_vec();
    data.extend_from_slice(&(8 + region.len() as u32).to_le_bytes());
    data.extend_from_slice(&region);
    for (prefix, offset, card) in entries.iter() {
        data.extend_from_slice(&prefix.to_le_bytes());
        data.extend_from_slice(&offset.to_le_bytes());
        data.push(*card);
    }
    data
}

fn scenario_file() -> Vec<u8> {
    file_of(&[b"Guangdong|Shenzhen|518000|0755"], &[(1808683, 8, 1)])
}

fn fields(info: &PhoneNoInfo) -> [String; 5] {
    [
        info.province.clone(),
        info.city.clone(),
        info.zip_code.clone(),
        info.area_code.clone(),
        info.card_type.clone(),
    ]
}

fn all_answers(data: &[u8], no: &str) -> Vec<Result<[String; 5], ErrorKind>> {
    let sorted = PhoneData::new(data).unwrap();
    let simd = PhoneDataSimd::new(data).unwrap();
    let hash = PhoneDataHash::new(data).unwrap();
    let bloom = PhoneDataBloom::new(data).unwrap();
    let mut cached = CachedLookup::new(PhoneData::new(data).unwrap(), 10);
    let first = cached.find(no).map(|i| fields(&i));
    let again = cached.find(no).map(|i| fields(&i));
    vec![
        sorted.find(no).map(|i| fields(&i)),
        simd.find(no).map(|i| fields(&i)),
        simd.find_with_prefetch(no).map(|i| fields(&i)),
        hash.find(no).map(|i| fields(&i)),
        bloom.find(no).map(|i| fields(&i)),
        first,
        again,
    ]
}

fn expected_scenario() -> [String; 5] {
    [
        "Guangdong".to_string(),
        "Shenzhen".to_string(),
        "518000".to_string(),
        "0755".to_string(),
        "中国移动".to_string(),
    ]
}

#[test]
fn scenario_single_record_found() {
    for answer in all_answers(&scenario_file(), "18086834111") {
        assert_eq!(answer, Ok(expected_scenario()));
    }
}

#[test]
fn scenario_absent_number_not_found() {
    for answer in all_answers(&scenario_file(), "99999999999") {
        assert_eq!(answer, Err(ErrorKind::NotFound));
    }
}

#[test]
fn scenario_short_number_invalid_length() {
    for answer in all_answers(&scenario_file(), "123") {
        assert_eq!(answer, Err(ErrorKind::InvalidLength));
    }
}

#[test]
fn scenario_unknown_carrier() {
    let data = file_of(&[b"Guangdong|Shenzhen|518000|0755"], &[(1808683, 8, 9)]);
    for answer in all_answers(&data, "18086834111") {
        assert_eq!(answer, Err(ErrorKind::InvalidOpNo));
    }
}

fn mixed_file() -> Vec<u8> {
    file_of(
        &["四川|成都|610000|028".as_bytes(), b"Guangdong|Shenzhen|518000|0755"],
        &[(1300001, 8, 3), (1808683, 33, 1), (1990000, 8, 8)],
    )
}

#[test]
fn strategies_agree_on_every_number() {
    let numbers = [
        "1300001", "13000019999", "18086834111", "1990000123", "1990001", "0000000", "12a4567",
        "", "123456789012", "19900001",
    ];
    for no in numbers.iter() {
        let answers = all_answers(&mixed_file(), no);
        for a in answers.iter() {
            assert_eq!(*a, answers[0], "strategies differ on {}", no);
        }
    }
    let answers = all_answers(&mixed_file(), "1990000");
    assert_eq!(answers[0].as_ref().unwrap()[4], "中国广电虚拟运营商");
}

#[test]
fn prefix_equivalence_holds() {
    let data = mixed_file();
    let sorted = PhoneData::new(&data).unwrap();
    for no in ["18086834111", "1808683x", "13000010000", "19999999999", "1990000abcd"].iter() {
        let short = &no[..7];
        assert_eq!(
            sorted.find(no).map(|i| fields(&i)),
            sorted.find(short).map(|i| fields(&i)),
            "{} and {} differ",
            no,
            short
        );
    }
}

#[test]
fn length_boundaries() {
    let sorted = PhoneData::new(&mixed_file()).unwrap();
    for no in ["", "123456", "123456789012"].iter() {
        assert_eq!(sorted.find(no).err(), Some(ErrorKind::InvalidLength));
    }
    assert!(sorted.find("1300001").is_ok());
    assert!(sorted.find("13000019999").is_ok());
    assert_eq!(sorted.find("1234567").err(), Some(ErrorKind::NotFound));
    assert_eq!(sorted.find("12345678901").err(), Some(ErrorKind::NotFound));
    assert_eq!(sorted.find("12x45678901").err(), Some(ErrorKind::InvalidFormat));
}

#[test]
fn bloom_has_no_false_negatives() {
    let mut filter = BloomFilter::with_size(1000, 4);
    for item in 0..200 {
        filter.insert(item * 7919);
    }
    assert_eq!(filter.item_count(), 200);
    assert_eq!(filter.hash_count(), 4);
    assert_eq!(filter.bit_len(), 1024);
    for item in 0..200 {
        assert!(filter.contains(item * 7919));
    }
}

#[test]
fn bloom_positions_depend_on_seed_and_item() {
    // With one word per 64 bits and three hash functions, an item and the
    // item one array-length away would share every bit if the hash were
    // the identity; with a real hash they do not.
    let mut filter = BloomFilter::with_size(65536, 3);
    filter.insert(0);
    assert!(filter.contains(0));
    assert!(!filter.contains(65536));
    let empty = BloomFilter::with_size(0, 3);
    assert_eq!(empty.bit_len(), 64);
    assert!(!empty.contains(1));
}

#[test]
fn bloom_stats_report_the_filter() {
    let bloom = PhoneDataBloom::new(&mixed_file()).unwrap();
    let (r, stats) = bloom.find_with_stats("18086834111");
    assert!(r.is_ok());
    assert!(stats.bloom_positive && stats.found);
    let (r, stats) = bloom.find_with_stats("123");
    assert_eq!(r.err(), Some(ErrorKind::InvalidLength));
    assert!(!stats.bloom_positive && !stats.found);
    assert_eq!(bloom.bloom_filter().item_count(), 3);
    assert_eq!(bloom.bloom_filter().hash_count(), 3);
    assert_eq!(bloom.bloom_filter().bit_len(), 38734 * 64);
    let small = PhoneDataBloom::with_filter_size(&mixed_file(), 128, 2).unwrap();
    assert!(small.find("19900001234").is_ok());
    assert_eq!(small.bloom_filter().bit_len(), 128);
}

#[test]
fn cache_is_transparent_and_bounded() {
    let data = mixed_file();
    let plain = PhoneData::new(&data).unwrap();
    let mut cached = CachedLookup::new(PhoneData::new(&data).unwrap(), 1);
    for no in ["18086834111", "1300001", "18086834111", "1234567", "1990000"].iter() {
        assert_eq!(
            cached.find(no).map(|i| fields(&i)),
            plain.find(no).map(|i| fields(&i))
        );
    }
    assert_eq!(cached.len(), 1);
    let mut none = CachedLookup::new(PhoneData::new(&data).unwrap(), 0);
    assert!(none.find("18086834111").is_ok());
    assert_eq!(none.len(), 0);
    let mut failing = CachedLookup::new(PhoneData::new(&data).unwrap(), 5);
    assert_eq!(failing.find("1234567").err(), Some(ErrorKind::NotFound));
    assert_eq!(failing.len(), 0);
    let batch = failing.find_batch(&["18086834111", "180868341110", "1808683"]);
    assert_eq!(batch.len(), 3);
    assert!(batch[0].is_ok() && batch[2].is_ok());
    assert_eq!(batch[1].as_ref().err(), Some(&ErrorKind::InvalidLength));
    assert_eq!(failing.len(), 2);
    assert_eq!(failing.strategy_ref().total_entries(), 3);
}

#[test]
fn record_round_trip() {
    let data = mixed_file();
    let db = RawDatabase::parse(&data).unwrap();
    let record = parse_record_data(&db.records, 33).unwrap();
    assert_eq!(record.province, "Guangdong");
    assert_eq!(record.area_code, "0755");
    assert_eq!(record.to_bytes(), b"Guangdong|Shenzhen|518000|0755".to_vec());
    let record = parse_record_data(&db.records, 8).unwrap();
    assert_eq!(record.city, "成都");
    assert_eq!(record.to_bytes(), "四川|成都|610000|028".as_bytes().to_vec());
    let built = ParsedRecord::new("a".to_string(), "".to_string(), "c".to_string(), "d".to_string());
    assert_eq!(built.to_bytes(), b"a||c|d".to_vec());
}

#[test]
fn corrupt_records_are_refused() {
    let records: [&[u8]; 4] = [b"a|b|c", b"a|b|c|d|e", &[0xff, b'|', b'b', b'|', b'c', b'|', b'd'], b"||||"];
    for r in records.iter() {
        let data = file_of(&[r], &[(1808683, 8, 1)]);
        let sorted = PhoneData::new(&data).unwrap();
        assert_eq!(sorted.find("1808683").err(), Some(ErrorKind::InvalidPhoneDatabase));
        assert_eq!(PhoneDataHash::new(&data).err(), Some(ErrorKind::InvalidPhoneDatabase));
    }
    let empty_fields = file_of(&[b"|||"], &[(1808683, 8, 2)]);
    let info = PhoneData::new(&empty_fields).unwrap().find("1808683").unwrap();
    assert_eq!(fields(&info), ["".to_string(), "".to_string(), "".to_string(), "".to_string(), "中国联通".to_string()]);
    // Offsets before the records region, past it, or with no terminator.
    for offset in [-1, 0, 7, 40].iter() {
        let data = file_of(&[b"a|b|c|d"], &[(1808683, *offset, 1)]);
        assert_eq!(PhoneData::new(&data).unwrap().find("1808683").err(), Some(ErrorKind::InvalidPhoneDatabase));
    }
    let mut unterminated = b"v001".to_vec();
    unterminated.extend_from_slice(&15u32.to_le_bytes());
    unterminated.extend_from_slice(b"a|b|c|d");
    unterminated.extend_from_slice(&1808683i32.to_le_bytes());
    unterminated.extend_from_slice(&8i32.to_le_bytes());
    unterminated.push(1);
    let sorted = PhoneData::new(&unterminated).unwrap();
    assert_eq!(sorted.find("1808683").err(), Some(ErrorKind::InvalidPhoneDatabase));
}

#[test]
fn corrupt_files_are_refused() {
    assert_eq!(PhoneData::new(b"v001").err(), Some(ErrorKind::InvalidPhoneDatabase));
    let mut bad_version = vec![0xff, 0xfe, b'0', b'1'];
    bad_version.extend_from_slice(&8u32.to_le_bytes());
    assert_eq!(PhoneData::new(&bad_version).err(), Some(ErrorKind::InvalidPhoneDatabase));
    let mut inside_header = b"v001".to_vec();
    inside_header.extend_from_slice(&4u32.to_le_bytes());
    assert_eq!(PhoneData::new(&inside_header).err(), Some(ErrorKind::InvalidPhoneDatabase));
    let mut past_end = b"v001".to_vec();
    past_end.extend_from_slice(&100u32.to_le_bytes());
    assert_eq!(PhoneData::new(&past_end).err(), Some(ErrorKind::InvalidPhoneDatabase));
    let unsorted = file_of(&[b"a|b|c|d"], &[(1900000, 8, 1), (1800000, 8, 1)]);
    assert_eq!(PhoneData::new(&unsorted).err(), Some(ErrorKind::InvalidPhoneDatabase));
    assert_eq!(PhoneDataBloom::new(&unsorted).err(), Some(ErrorKind::InvalidPhoneDatabase));
    let repeated = file_of(&[b"a|b|c|d"], &[(1800000, 8, 1), (1800000, 8, 2)]);
    assert_eq!(PhoneDataSimd::new(&repeated).err(), Some(ErrorKind::InvalidPhoneDatabase));
}

#[test]
fn trailing_partial_entry_is_ignored() {
    let mut data = mixed_file();
    data.extend_from_slice(&[1, 2, 3, 4, 5]);
    let sorted = PhoneData::new(&data).unwrap();
    assert_eq!(sorted.total_entries(), 3);
    assert_eq!(sorted.version(), "v001");
    let empty = PhoneData::new(&file_of(&[], &[])).unwrap();
    assert_eq!(empty.total_entries(), 0);
    assert_eq!(empty.find("1808683").err(), Some(ErrorKind::NotFound));
}

#[test]
fn header_and_sizes() {
    let data = mixed_file();
    let header = read_header(&data).unwrap();
    assert_eq!(header.version, "v001");
    assert_eq!(header.index_offset, 8 + 25 + 31);
    let sorted = PhoneData::new(&data).unwrap();
    assert_eq!(sorted.memory_usage_bytes(), 56 + 3 * 12);
    let hash = PhoneDataHash::new(&data).unwrap();
    assert_eq!(hash.memory_usage_bytes(), 3 * 216);
    let stats = hash.stats();
    assert_eq!(stats.total_entries, 3);
    assert_eq!(stats.version, "v001");
    let bloom = PhoneDataBloom::new(&data).unwrap();
    assert_eq!(bloom.memory_usage_bytes(), 56 + 3 * 12 + 38734 * 8);
}

#[test]
fn carrier_codes_round_trip() {
    let names = [
        "中国移动", "中国联通", "中国电信", "中国电信虚拟运营商", "中国联通虚拟运营商",
        "中国移动虚拟运营商", "中国广电", "中国广电虚拟运营商",
    ];
    for code in 1u8..=8 {
        let card = CardType::from_u8(code).unwrap();
        assert_eq!(card.get_code(), code);
        assert_eq!(card.get_description(), names[(code - 1) as usize]);
    }
    assert_eq!(CardType::from_u8(0).err(), Some(ErrorKind::InvalidOpNo));
    assert_eq!(CardType::from_u8(9).err(), Some(ErrorKind::InvalidOpNo));
    let record = ParsedRecord::new("p".to_string(), "c".to_string(), "z".to_string(), "a".to_string());
    assert_eq!(build_phone_info(&record, 9).err(), Some(ErrorKind::InvalidOpNo));
    assert_eq!(build_phone_info(&record, 3).unwrap().card_type, "中国电信");
    let info = PhoneNoInfo::new("p".into(), "c".into(), "z".into(), "a".into(), "k".into());
    assert_eq!(info.duplicate().card_type, "k");
}
