use short_link_store::codec::{decode, encode};
use short_link_store::error::LinkError;

#[test]
fn encode_zero_is_first_symbol() {
    assert_eq!(encode(0), "A");
}

#[test]
fn encode_small_values() {
    assert_eq!(encode(1), "B");
    assert_eq!(encode(7), "H");
    assert_eq!(encode(22), "W");
    assert_eq!(encode(61), "9");
    assert_eq!(encode(62), "BA");
    assert_eq!(encode(123), "B9");
}

#[test]
fn encode_largest_value() {
    let code = encode(usize::MAX);
    assert_eq!(code.len(), 11);
    assert_eq!(decode(&code), Ok(usize::MAX));
}

#[test]
fn encode_is_deterministic() {
    for n in [0usize, 1, 61, 62, 3844, 1 << 40] {
        assert_eq!(encode(n), encode(n));
    }
}

#[test]
fn decode_values() {
    assert_eq!(decode("A"), Ok(0));
    assert_eq!(decode("B"), Ok(1));
    assert_eq!(decode("B9"), Ok(123));
    assert_eq!(decode("zzzz"), Ok(51 * (62 * 62 * 62 + 62 * 62 + 62 + 1)));
}

#[test]
fn decode_rejects_symbol_outside_alphabet() {
    assert_eq!(decode("!!"), Err(LinkError::InvalidCode));
    assert_eq!(decode("Base*62"), Err(LinkError::InvalidCode));
}

#[test]
fn decode_rejects_overflow() {
    assert_eq!(
        decode("AStringTooLongCausesTheOverflowError"),
        Err(LinkError::InvalidCode)
    );
}

#[test]
fn decode_inverts_encode() {
    let mut n: usize = 0;
    while n < 20000 {
        assert_eq!(decode(&encode(n)), Ok(n));
        n += 7;
    }
    for n in [usize::MAX - 1, 1 << 63, 62usize.pow(10)] {
        assert_eq!(decode(&encode(n)), Ok(n));
    }
}

#[test]
fn encode_inverts_decode_on_canonical_codes() {
    for s in ["A", "B", "zz", "B9", "Hello", "x0Y1z2"] {
        assert_eq!(encode(decode(s).unwrap()), s);
    }
}

#[test]
fn distinct_values_get_distinct_codes() {
    let mut codes: Vec<String> = Vec::new();
    for n in 0usize..5000 {
        codes.push(encode(n));
    }
    let mut sorted = codes.clone();
    sorted.sort();
    sorted.dedup();
    assert_eq!(sorted.len(), codes.len());
}
