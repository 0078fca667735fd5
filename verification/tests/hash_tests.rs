use pender::hash::{into_64bytes, Blake2};
use pender::summary::Summary;

#[test]
fn digest_is_64_bytes_and_input_sensitive() {
    let a = Blake2::new(b"foo");
    let b = Blake2::new(b"foo");
    let c = Blake2::new(b"bar");
    assert_eq!(a.bytes.len(), 64);
    assert_eq!(a, b);
    assert!(a != c);
}

#[test]
fn empty_input_still_digests_to_64_bytes() {
    let empty = Blake2::new(b"");
    let other = Blake2::new(b"x");
    assert_eq!(empty.bytes.len(), 64);
    assert!(empty != other);
}

#[test]
fn into_64bytes_copies_the_slice() {
    let mut raw = [0u8; 64];
    for (i, byte) in raw.iter_mut().enumerate() {
        *byte = i as u8;
    }
    let copied = into_64bytes(&raw);
    assert_eq!(copied, raw);
}

#[test]
fn hex_rendering_is_two_uppercase_digits_per_byte() {
    let zero = Blake2 { bytes: [0u8; 64] };
    assert_eq!(zero.to_hex(), "0".repeat(128));

    let mut bytes = [0u8; 64];
    bytes[0] = 0xAB;
    bytes[63] = 0x0F;
    let mixed = Blake2 { bytes };
    let hex = mixed.to_hex();
    assert_eq!(hex.len(), 128);
    assert!(hex.starts_with("AB"));
    assert!(hex.ends_with("0F"));
}

#[test]
fn summary_pins_a_label_and_payload_to_a_digest() {
    let checkpoint = Summary {
        name: String::from("weekly"),
        summary: b"state as of monday".to_vec(),
        event: Blake2::new(b"tip event"),
    };
    let copy = checkpoint.clone();
    assert_eq!(copy.name, checkpoint.name);
    assert_eq!(copy.summary, checkpoint.summary);
    assert_eq!(copy.event, checkpoint.event);
}
