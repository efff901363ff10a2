use hyperid::HyperId;
use hyperid::Id;
use hyperid::ParseIdError;

#[test]
fn into_bytes() {
    let hyperid = HyperId::default();

    let id = hyperid.get();

    let id_bytes = id.into_bytes();

    let id_from_decode = Id::from_bytes(id_bytes).unwrap();

    assert_eq!(hyperid.get(), id_from_decode);
}

#[test]
fn url_safe_encode_decode() {
    let hyperid = HyperId::default();

    let id = hyperid.get();

    let id_str = id.to_url_safe();

    let id_from_decode = Id::from_url_safe(id_str).unwrap();

    assert_eq!(id, id_from_decode);
}

#[test]
fn bytes_layout_is_big_endian_base_then_counter() {
    let id = Id { base: 1, counter: 2 };
    let mut expected: Vec<u8> = vec![0; 15];
    expected.push(1);
    expected.push(2);
    assert_eq!(id.into_bytes(), expected);
}

#[test]
fn bytes_round_trip_preserves_every_field() {
    let id = Id { base: 0x0102030405060708090a0b0c0d0e0f10, counter: 42 };
    let decoded = Id::from_bytes(id.into_bytes()).unwrap();
    assert_eq!(decoded, id);
}

#[test]
fn from_bytes_rejects_sixteen_bytes() {
    let bytes: Vec<u8> = vec![0; 16];
    assert!(matches!(Id::from_bytes(bytes), Err(ParseIdError::WrongByteSize)));
}

#[test]
fn from_bytes_rejects_eighteen_bytes() {
    let bytes: Vec<u8> = vec![0; 18];
    assert!(matches!(Id::from_bytes(bytes), Err(ParseIdError::WrongByteSize)));
}

#[test]
fn url_safe_text_of_zero_id() {
    let id = Id { base: 0, counter: 0 };
    assert_eq!(id.to_url_safe(), "AAAAAAAAAAAAAAAAAAAAAA.0");
}

#[test]
fn url_safe_text_uses_little_endian_base() {
    let id = Id { base: 1, counter: 0 };
    assert_eq!(id.to_url_safe(), "AQAAAAAAAAAAAAAAAAAAAA.0");
}

#[test]
fn url_safe_counter_is_decimal() {
    let id = Id { base: 0, counter: 255 };
    assert_eq!(id.to_url_safe(), "AAAAAAAAAAAAAAAAAAAAAA.255");
}

#[test]
fn url_safe_round_trip_preserves_every_field() {
    let id = Id { base: u128::MAX, counter: 200 };
    assert_eq!(Id::from_url_safe(id.to_url_safe()).unwrap(), id);
}

#[test]
fn from_url_safe_without_separator_is_no_counter() {
    let r = Id::from_url_safe("AAAAAAAAAAAAAAAAAAAAAA".to_string());
    assert!(matches!(r, Err(ParseIdError::NoCounterFound)));
}

#[test]
fn from_url_safe_with_unparseable_counter_is_no_counter() {
    let r = Id::from_url_safe("AAAAAAAAAAAAAAAAAAAAAA.xyz".to_string());
    assert!(matches!(r, Err(ParseIdError::NoCounterFound)));
}

#[test]
fn from_url_safe_with_overflowing_counter_is_no_counter() {
    let r = Id::from_url_safe("AAAAAAAAAAAAAAAAAAAAAA.256".to_string());
    assert!(matches!(r, Err(ParseIdError::NoCounterFound)));
}

#[test]
fn from_url_safe_with_empty_counter_is_no_counter() {
    let r = Id::from_url_safe("AAAAAAAAAAAAAAAAAAAAAA.".to_string());
    assert!(matches!(r, Err(ParseIdError::NoCounterFound)));
}

#[test]
fn from_url_safe_with_corrupt_base_is_no_base() {
    let r = Id::from_url_safe("!!!!.0".to_string());
    assert!(matches!(r, Err(ParseIdError::NoBaseFound)));
}

#[test]
fn from_url_safe_with_short_base_is_no_base() {
    let r = Id::from_url_safe("AAAA.0".to_string());
    assert!(matches!(r, Err(ParseIdError::NoBaseFound)));
}

#[test]
fn from_url_safe_splits_at_first_separator() {
    let r = Id::from_url_safe("AAAAAAAAAAAAAAAAAAAAAA.5.0".to_string());
    assert!(matches!(r, Err(ParseIdError::NoCounterFound)));
}

#[test]
fn from_url_safe_accepts_plus_signed_counter() {
    let r = Id::from_url_safe("AAAAAAAAAAAAAAAAAAAAAA.+5".to_string());
    assert_eq!(r.unwrap(), Id { base: 0, counter: 5 });
}
