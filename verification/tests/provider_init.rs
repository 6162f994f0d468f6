use anistream::decode::{provider_init, ProviderInitError};

const RESP: &str = "175948514e4c4f57175b54575b5307515c050f5c0a0c0f0b0f0c0e590a0c0b5b0a0c0a010a010f080e5e0e0a0f0d0f0a0f0c0e0b0e0f0e5a0e5e0e000e090a000e5e0e010a010e590e010e0f0e0a0a000f0e0e5d0f0e0b010e5e0e0a0b5a0c5a0d0a0c5a0f5b0c010d0a0c0f0b0d0a080f0a0e5e0f0a0e590e0b0b5a0c0c0e010e5c0f0b0a5c0e000e010a5c0c5d0e0b0f0c0e010a5c0c0f0e0d0e0f0e0a0e0b0e5a0e5e0e0f0a5c0b0a0f0a0e5d0a5c0d0d0e0b0e0f0f0d0e010e000a080f0a0f5e0f0e0e0b0f0d0f0b0e0c0b5a0d0d0d0b0c0c0a080f0d0f0b0e0c0b5a0a080e0d0e010f080e0b0f0c0b5a0d5e0b0c0b5e0b0c0d5b0d5d0c5e0f080d5e0e5a0b5e0f0c0e0a0d0d0b0f0f0b0e0c0f5e0b0f0e010d5b0d5d0c5b0f080c590d090c080e5b0d5e0d090d0c0e590e0c0d090e590e5d0c590d0a0d0c0b0e0e0f0c0d0b0f0f5b0d5b0d090c080f5b0e0c0b0c0b0a0f0b0e0d0c090b0b0e000a0c0a590a0c0f0d0f0a0f0c0e0b0e0f0e5a0e0b0f0c0c5e0e0a0a0c0b5b0a0c0f080e5e0e0a0e0b0e010f0d0f0a0f0c0e0b0e0f0e5a0e5e0e010a0c0a590a0c0e0a0e0f0f0a0e0b0a0c0b5b0a0c0b0c0b0e0b0c0b0a0a5a0b0e0b0f0a5a0b0c0b080d0a0b0f0b0d0b5b0b0e0b0d0b5b0b0e0b0e0a000b0e0b0e0b0e0d5b0a0c0f5a1e4a5d5e5d4a5d4a05";

#[test]
fn test_provider_init_success() {
    let resp = RESP;
    let result = provider_init(resp).unwrap();
    println!("{:?}", result);
    assert!(result.contains("clock.json"));
}

#[test]
fn test_provider_init_error() {
    let resp = "invalid response";
    let result = provider_init(resp);

    assert!(result.is_err());
}

#[test]
fn provider_init_decodes_whole_path() {
    let result = provider_init(RESP).unwrap();
    assert!(result.starts_with("/apivtwo/clock.json?id=7d2473746a243c2429"));
    assert!(result.ends_with("5c247b&referer="));
    assert_eq!(result.matches("clock").count(), 1);
}

#[test]
fn provider_init_refuses_under_thirty_bytes() {
    assert_eq!(provider_init("17594851"), Err(ProviderInitError::TooShort));
    assert_eq!(provider_init(&"0".repeat(29)), Err(ProviderInitError::TooShort));
    assert_eq!(provider_init(""), Err(ProviderInitError::TooShort));
}

#[test]
fn provider_init_counts_bytes_not_characters() {
    // ten three-byte characters make thirty bytes
    let resp = "\u{20ac}".repeat(10);
    assert!(provider_init(&resp).is_ok());
    // twenty-nine bytes are refused, thirty accepted
    assert!(provider_init(&"5a".repeat(14)).is_err());
    assert_eq!(provider_init(&"5a".repeat(15)).unwrap(), "b".repeat(15));
}

#[test]
fn provider_init_keeps_unknown_codes_and_odd_tail() {
    // "ff" has no meaning, the odd last "5" stays as it is
    assert_eq!(
        provider_init("5a59ff5b5a59ff5b5a59ff5b5a59ff5").unwrap(),
        "baffcbaffcbaffcbaff5"
    );
}

#[test]
fn provider_init_takes_second_field_after_colon() {
    assert_eq!(
        provider_init("ignored-field:5d4c5e5959595959595959595959:tail").unwrap(),
        "etfaaaaaaaaaaa"
    );
}

#[test]
fn provider_init_drops_blanks_and_trims() {
    assert_eq!(
        provider_init("59 59\t59\n5959595959 5959595959595959").unwrap(),
        "a".repeat(16)
    );
    assert_eq!(
        provider_init("5b54575b535b54575b535b54575b53").unwrap(),
        "clock.jsonclock.jsonclock.json"
    );
}

#[test]
fn refusal_carries_the_original_message() {
    let resp = "59".repeat(14) + "5";
    assert_eq!(resp.len(), 29);
    let result = provider_init(&resp);
    assert!(result.is_err());
    assert_eq!(result.unwrap_err().to_string(), "non valid response: too small");
    assert!(provider_init(&("59".repeat(15))).is_ok());
}
