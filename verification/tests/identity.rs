use downwards_research::identity::{byte_hash, fingerprint_bytes, hex_id, stable_binding_id};

#[test]
fn fingerprint_matches_fnv1a_reference_values() {
    assert_eq!(fingerprint_bytes(b""), 0xcbf2_9ce4_8422_2325);
    assert_eq!(fingerprint_bytes(b"a"), 0xaf63_dc4c_8601_ec8c);
}

#[test]
fn byte_hash_is_prefixed_sixteen_digit_lowercase_hex() {
    assert_eq!(byte_hash(b"hello"), "fnv1a64-a430d84680aabd0b");
    assert_eq!(byte_hash(b""), "fnv1a64-cbf29ce484222325");
}

#[test]
fn hex_id_pads_to_sixteen_digits() {
    assert_eq!(hex_id("seed", 0x2a), "seed-000000000000002a");
    assert_eq!(hex_id("x", u64::MAX), "x-ffffffffffffffff");
}

#[test]
fn stable_binding_id_length_prefixes_fields() {
    assert_eq!(
        stable_binding_id("direct-cost-v1", &["door-a", "baseline"]),
        "direct-cost-v1-98a839b5071ea8f6"
    );
    // Moving a byte across a field boundary changes the identity.
    assert_ne!(
        stable_binding_id("p", &["ab", "c"]),
        stable_binding_id("p", &["a", "bc"])
    );
}
