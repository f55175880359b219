use phone_data::{
    ErrorKind, PhoneData, PhoneDataBloom, PhoneDataHash, PhoneDataSimd, PhoneLookup, PhoneStats,
};

/// Builds a database file from its records and its (prefix, record, carrier)
/// entries, given in ascending prefix order.
fn build_database(records: &[&str], entries: &[(i32, usize, u8)]) -> Vec<u8> {
    let mut region = Vec::new();
    let mut offsets = Vec::new();
    for r in records.iter() {
        offsets.push(8 + region.len() as i32);
        region.extend_from_slice(r.as_bytes());
        region.push(0);
    }
    let mut data = b"v001".to_vec();
    data.extend_from_slice(&(8 + region.len() as u32).to_le_bytes());
    data.extend_from_slice(&region);
    for (prefix, record, card) in entries.iter() {
        data.extend_from_slice(&prefix.to_le_bytes());
        data.extend_from_slice(&offsets[*record].to_le_bytes());
        data.push(*card);
    }
    data
}

const RECORDS: [&str; 4] = [
    "Guangdong|Shenzhen|518000|0755",
    "北京|北京|100000|010",
    "上海|上海|200000|021",
    "四川|成都|610000|028",
];

fn sample_database() -> Vec<u8> {
    build_database(
        &RECORDS,
        &[
            (1334444, 2, 2),
            (1380013, 1, 1),
            (1590000, 2, 3),
            (1776666, 3, 2),
            (1808683, 0, 1),
            (1861234, 1, 1),
            (1899998, 3, 3),
            (1998888, 3, 4),
        ],
    )
}

/// Every prefix from 1300000 to 1999999, cycling through records and carriers.
fn full_database() -> Vec<u8> {
    let entries: Vec<(i32, usize, u8)> = (1300000..2000000)
        .map(|p: i32| (p, (p % 4) as usize, (p % 8) as u8 + 1))
        .collect();
    build_database(&RECORDS, &entries)
}

#[test]
fn test_all_algorithms_compatibility() {
    let data = sample_database();
    let binary_data = PhoneData::new(&data).expect("Failed to create binary search data");
    let hash_data = PhoneDataHash::new(&data).expect("Failed to create hash data");
    let simd_data = PhoneDataSimd::new(&data).expect("Failed to create SIMD data");
    let bloom_data = PhoneDataBloom::new(&data).expect("Failed to create bloom data");

    let test_phones = vec!["18086834111", "13800138000", "15900000000", "18612345678", "13344445555"];

    for phone in test_phones {
        let binary_result = binary_data.find(phone);
        let hash_result = hash_data.find(phone);
        let simd_result = simd_data.find(phone);
        let bloom_result = bloom_data.find(phone);

        assert!(binary_result.is_ok(), "Binary search failed for {}", phone);
        assert!(hash_result.is_ok(), "Hash lookup failed for {}", phone);
        assert!(simd_result.is_ok(), "SIMD lookup failed for {}", phone);
        assert!(bloom_result.is_ok(), "Bloom lookup failed for {}", phone);

        let binary_info = binary_result.unwrap();
        let hash_info = hash_result.unwrap();
        let simd_info = simd_result.unwrap();
        let bloom_info = bloom_result.unwrap();

        assert!(!binary_info.province.is_empty(), "Binary search returned empty province");
        assert!(!hash_info.province.is_empty(), "Hash lookup returned empty province");
        assert!(!simd_info.province.is_empty(), "SIMD lookup returned empty province");
        assert!(!bloom_info.province.is_empty(), "Bloom lookup returned empty province");
    }
}

#[test]
fn test_failed_lookups_consistency() {
    let data = sample_database();
    let binary_data = PhoneData::new(&data).expect("Failed to create binary search data");
    let hash_data = PhoneDataHash::new(&data).expect("Failed to create hash data");
    let simd_data = PhoneDataSimd::new(&data).expect("Failed to create SIMD data");
    let bloom_data = PhoneDataBloom::new(&data).expect("Failed to create bloom data");

    // Absent prefixes are not found; numbers of a wrong length are refused
    // for their length.
    let invalid_phones = vec![
        ("99999999999", ErrorKind::NotFound),
        ("12345678901", ErrorKind::NotFound),
        ("11111111111", ErrorKind::NotFound),
        ("00000000000", ErrorKind::NotFound),
        ("1", ErrorKind::InvalidLength),
        ("123456789012", ErrorKind::InvalidLength),
    ];

    for (phone, expected) in invalid_phones {
        let binary_result = binary_data.find(phone);
        let hash_result = hash_data.find(phone);
        let simd_result = simd_data.find(phone);
        let bloom_result = bloom_data.find(phone);

        assert!(binary_result.is_err(), "Binary search should fail for {}", phone);
        assert!(hash_result.is_err(), "Hash lookup should fail for {}", phone);
        assert!(simd_result.is_err(), "SIMD lookup should fail for {}", phone);
        assert!(bloom_result.is_err(), "Bloom lookup should fail for {}", phone);

        assert_eq!(binary_result.err().unwrap(), expected);
        assert_eq!(hash_result.err().unwrap(), expected);
        assert_eq!(simd_result.err().unwrap(), expected);
        assert_eq!(bloom_result.err().unwrap(), expected);
    }
}

#[test]
fn test_batch_lookup_consistency() {
    let data = sample_database();
    let binary_data = PhoneData::new(&data).expect("Failed to create binary search data");
    let hash_data = PhoneDataHash::new(&data).expect("Failed to create hash data");
    let simd_data = PhoneDataSimd::new(&data).expect("Failed to create SIMD data");
    let bloom_data = PhoneDataBloom::new(&data).expect("Failed to create bloom data");

    let test_phones = vec!["18086834111", "13800138000", "15900000000"];

    let binary_results = binary_data.find_batch(&test_phones);
    let hash_results = hash_data.find_batch(&test_phones);
    let simd_results = simd_data.find_batch(&test_phones);
    let bloom_results = bloom_data.find_batch(&test_phones);

    assert_eq!(binary_results.len(), hash_results.len());
    assert_eq!(binary_results.len(), simd_results.len());
    assert_eq!(binary_results.len(), bloom_results.len());
    assert_eq!(binary_results.len(), test_phones.len());

    for (i, phone) in test_phones.iter().enumerate() {
        assert!(binary_results[i].is_ok(), "Binary search batch failed for {}", phone);
        assert!(hash_results[i].is_ok(), "Hash lookup batch failed for {}", phone);
        assert!(simd_results[i].is_ok(), "SIMD lookup batch failed for {}", phone);
        assert!(bloom_results[i].is_ok(), "Bloom lookup batch failed for {}", phone);
    }
}

#[test]
fn test_stats_consistency() {
    let data = sample_database();
    let binary_data = PhoneData::new(&data).expect("Failed to create binary search data");
    let hash_data = PhoneDataHash::new(&data).expect("Failed to create hash data");
    let simd_data = PhoneDataSimd::new(&data).expect("Failed to create SIMD data");
    let bloom_data = PhoneDataBloom::new(&data).expect("Failed to create bloom data");

    assert_eq!(binary_data.total_entries(), hash_data.total_entries());
    assert_eq!(binary_data.total_entries(), simd_data.total_entries());
    assert_eq!(binary_data.total_entries(), bloom_data.total_entries());

    assert_eq!(binary_data.version(), hash_data.version());
    assert_eq!(binary_data.version(), simd_data.version());
    assert_eq!(binary_data.version(), bloom_data.version());

    assert_eq!(binary_data.memory_usage_bytes(), simd_data.memory_usage_bytes());

    assert!(hash_data.memory_usage_bytes() > binary_data.memory_usage_bytes());
    assert!(bloom_data.memory_usage_bytes() > binary_data.memory_usage_bytes());
}

#[test]
fn test_edge_cases() {
    let binary_data = PhoneData::new(&sample_database()).expect("Failed to create binary search data");

    let result = binary_data.find("1808683");
    assert!(result.is_ok(), "7-digit phone number should work");

    let result = binary_data.find("18086834111");
    assert!(result.is_ok(), "11-digit phone number should work");

    assert!(binary_data.find("").is_err());
    assert!(binary_data.find("123456").is_err());
    assert!(binary_data.find("123456789012").is_err());
}

#[test]
fn test_operator_types() {
    let binary_data = PhoneData::new(&sample_database()).expect("Failed to create binary search data");

    let test_cases = vec![
        ("18086834111", "移动"),
        ("18612345678", "移动"),
        ("13344445555", "联通"),
        ("17766668888", "联通"),
        ("18999987777", "电信"),
        ("19988887777", "电信"),
    ];

    for (phone, expected_operator) in test_cases {
        let result = binary_data.find(phone).expect("Failed to lookup phone");
        assert!(
            result.card_type.contains(expected_operator),
            "Operator mismatch for {}. Expected: {}, Got: {}",
            phone,
            expected_operator,
            result.card_type
        );
    }
}

#[test]
fn test_data_integrity() {
    let binary_data = PhoneData::new(&full_database()).expect("Failed to create binary search data");

    assert!(!binary_data.version().is_empty(), "Version should not be empty");
    assert!(binary_data.total_entries() > 500000, "Should have significant number of records");
    assert!(binary_data.memory_usage_bytes() > 1000000, "Should use reasonable amount of memory");

    let known_phones = vec!["13800138000", "18612345678", "13344445555", "17766668888", "18999987777"];

    for phone in known_phones {
        assert!(binary_data.find(phone).is_ok(), "Known phone number {} should be found", phone);
    }
}
