use ethereum_types::H256;
use instance_manager::config::entity_cache_size;
use instance_manager::error::IndexingError;
use instance_manager::text::{hash_hex, parse_u64};

#[test]
fn numbers_are_read() {
    assert_eq!(parse_u64("0"), Some(0));
    assert_eq!(parse_u64("10000"), Some(10_000));
    assert_eq!(parse_u64("+7"), Some(7));
    assert_eq!(parse_u64("007"), Some(7));
    assert_eq!(parse_u64("18446744073709551615"), Some(u64::MAX));
}

#[test]
fn other_text_is_no_number() {
    assert_eq!(parse_u64(""), None);
    assert_eq!(parse_u64("+"), None);
    assert_eq!(parse_u64("-1"), None);
    assert_eq!(parse_u64("++1"), None);
    assert_eq!(parse_u64(" 1"), None);
    assert_eq!(parse_u64("1_000"), None);
    assert_eq!(parse_u64("12a"), None);
    assert_eq!(parse_u64("18446744073709551616"), None);
    assert_eq!(parse_u64("99999999999999999999999"), None);
    assert_eq!(parse_u64("\u{0661}"), None);
}

#[test]
fn numbers_are_read_as_the_standard_library_does() {
    for text in [
        "", "+", "-", "-0", "0", "+0", "1", "42", "00", "4 2", "18446744073709551615",
        "18446744073709551616", "18446744073709551620", "\u{ff11}", "1\n",
    ] {
        assert_eq!(parse_u64(text), text.parse::<u64>().ok(), "{:?}", text);
    }
}

#[test]
fn cache_size_has_a_default() {
    assert_eq!(entity_cache_size(None), Some(10_000_000));
}

#[test]
fn cache_size_is_set_in_thousands_of_bytes() {
    assert_eq!(entity_cache_size(Some("1".to_string())), Some(1_000));
    assert_eq!(entity_cache_size(Some("0".to_string())), Some(0));
    assert_eq!(
        entity_cache_size(Some("18446744073709551".to_string())),
        Some(18_446_744_073_709_551_000)
    );
}

#[test]
fn invalid_cache_size_is_refused() {
    assert_eq!(entity_cache_size(Some(String::new())), None);
    assert_eq!(entity_cache_size(Some("ten".to_string())), None);
    assert_eq!(entity_cache_size(Some("18446744073709552".to_string())), None);
}

#[test]
fn hashes_are_written_in_lower_case_hex() {
    let mut bytes = [0u8; 32];
    bytes[0] = 0xab;
    bytes[1] = 0x09;
    bytes[31] = 0xf0;
    let hex = hash_hex(&bytes);
    assert_eq!(hex, "ab090000000000000000000000000000000000000000000000000000000000f0");
}

#[test]
fn hashes_are_written_as_the_hash_type_does() {
    let mut bytes = [0u8; 32];
    for (i, byte) in bytes.iter_mut().enumerate() {
        *byte = (i * 37 + 11) as u8;
    }
    assert_eq!(hash_hex(&bytes), format!("{:x}", H256(bytes)));
    assert_eq!(hash_hex(&[255; 32]), format!("{:x}", H256([255; 32])));
}

#[test]
fn failed_trigger_names_block_and_transaction() {
    let error = IndexingError::Trigger {
        block: "#7 (beef)".to_string(),
        transaction: Some([0x11; 32]),
        cause: "out of gas".to_string(),
    };
    assert_eq!(
        error.message(),
        "Failed to process trigger in block #7 (beef), transaction \
         1111111111111111111111111111111111111111111111111111111111111111: out of gas"
    );
}

#[test]
fn failed_trigger_without_transaction() {
    let error = IndexingError::Trigger {
        block: "#7 (beef)".to_string(),
        transaction: None,
        cause: "out of gas".to_string(),
    };
    assert_eq!(error.message(), "Failed to process trigger: out of gas");
}

#[test]
fn other_errors_have_their_text() {
    let stored = IndexingError::BlockStream { cause: "gone".to_string() };
    assert_eq!(stored.message(), "Error while processing block stream for a subgraph: gone");
    let other = IndexingError::Other { cause: "gone".to_string() };
    assert_eq!(other.message(), "gone");
}
