use ab_tag_client::ConnectionError;
use ab_tag_client::REAL_TYPE_CODE;
use ab_tag_client::TagError;
use ab_tag_client::TypedValue;
use ab_tag_client::connect;
use ab_tag_client::decode_real;
use ab_tag_client::parse_host;
use ab_tag_client::read_f32;
use ab_tag_client::write_f32;

#[test]
fn connect_write_then_read_scenario() {
    let mut h = connect("10.0.0.5").unwrap();
    assert!(write_f32(&mut h, "Speed", 42.5f32.to_bits()).is_ok());
    let got = read_f32(&mut h, "Speed").unwrap();
    assert_eq!(f32::from_bits(got), 42.5f32);
}

#[test]
fn round_trip_is_bit_exact() {
    let mut h = connect("192.168.1.10").unwrap();
    let values = [0.0f32, -0.0, 1.0, -1.5, f32::MIN, f32::MAX, f32::INFINITY, f32::NAN];
    for v in values {
        assert!(write_f32(&mut h, "Analog_1", v.to_bits()).is_ok());
        assert_eq!(read_f32(&mut h, "Analog_1").unwrap(), v.to_bits());
    }
}

#[test]
fn writes_complete_in_program_order() {
    let mut h = connect("10.0.0.5").unwrap();
    write_f32(&mut h, "Rate", 1.0f32.to_bits()).unwrap();
    write_f32(&mut h, "Rate", 2.0f32.to_bits()).unwrap();
    let got = read_f32(&mut h, "Rate").unwrap();
    assert_eq!(got, 2.0f32.to_bits());
    assert_ne!(got, 1.0f32.to_bits());
}

#[test]
fn independent_handles_do_not_interfere() {
    let mut one = connect("10.0.0.1").unwrap();
    let mut two = connect("10.0.0.2").unwrap();
    write_f32(&mut one, "Speed", 1.5f32.to_bits()).unwrap();
    write_f32(&mut two, "Speed", 2.5f32.to_bits()).unwrap();
    assert_eq!(read_f32(&mut one, "Speed").unwrap(), 1.5f32.to_bits());
    assert_eq!(read_f32(&mut two, "Speed").unwrap(), 2.5f32.to_bits());
}

#[test]
fn malformed_tag_fails_fast_and_changes_nothing() {
    let mut h = connect("10.0.0.5").unwrap();
    write_f32(&mut h, "Kept", 7.25f32.to_bits()).unwrap();
    assert!(matches!(
        write_f32(&mut h, "124", 1.0f32.to_bits()),
        Err(TagError::InvalidAddress)
    ));
    assert!(matches!(read_f32(&mut h, "my.heart:on"), Err(TagError::InvalidAddress)));
    // The rejected calls left the session untouched.
    assert_eq!(read_f32(&mut h, "Kept").unwrap(), 7.25f32.to_bits());
}

#[test]
fn reading_an_absent_tag_is_rejected_remotely() {
    let mut h = connect("10.0.0.5").unwrap();
    assert!(matches!(
        read_f32(&mut h, "Nowhere"),
        Err(TagError::RemoteRejected(ab_tag_client::PATH_SEGMENT_ERROR))
    ));
}

#[test]
fn tags_with_equal_addresses_share_a_slot() {
    let mut h = connect("10.0.0.5").unwrap();
    write_f32(&mut h, "axis[1]", 3.5f32.to_bits()).unwrap();
    assert_eq!(read_f32(&mut h, "axis.1").unwrap(), 3.5f32.to_bits());
}

#[test]
fn unresolvable_addresses_never_yield_a_handle() {
    let bad = [
        "example.com",
        "10.0.0",
        "10.0.0.0.1",
        "10.0.0.256",
        "01.2.3.4",
        "10.0.0.5x",
        "",
        "10..0.5",
    ];
    for addr in bad {
        assert!(
            matches!(connect(addr), Err(ConnectionError::ResolutionFailed)),
            "connected to {:?}",
            addr
        );
    }
}

#[test]
fn literal_addresses_resolve_to_their_octets() {
    let ends = parse_host("255.255.255.255").unwrap();
    assert_eq!((ends.o0, ends.o1, ends.o2, ends.o3), (255, 255, 255, 255));
    let h = connect("0.0.0.0").unwrap();
    let e = h.endpoint();
    assert_eq!((e.o0, e.o1, e.o2, e.o3), (0, 0, 0, 0));
    let h2 = connect("10.0.0.5").unwrap();
    let e2 = h2.endpoint();
    assert_eq!((e2.o0, e2.o1, e2.o2, e2.o3), (10, 0, 0, 5));
}

#[test]
fn decoding_checks_the_type_tag() {
    let bits = 42.5f32.to_bits();
    assert!(matches!(decode_real(REAL_TYPE_CODE, bits), Ok(TypedValue::Real(b)) if b == bits));
    // 0xC4 is DINT, a 32-bit integer: same width, different type.
    assert!(matches!(decode_real(0xC4, bits), Err(TagError::TypeMismatch)));
}

#[test]
fn typed_values_carry_their_tag_and_bits() {
    let bits = 1.25f32.to_bits();
    let v = TypedValue::Real(bits);
    assert_eq!(v.type_code(), REAL_TYPE_CODE);
    assert_eq!(v.bits(), bits);
}
