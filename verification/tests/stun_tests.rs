use crypto::hmac::Hmac;
use crypto::mac::Mac;
use crypto::sha1::Sha1;

use webrtc::addr::Ip4Addr;
use webrtc::stun::attribute::{Attribute, ComprehensionOptional, ErrorCode, NumericCode, Username};
use webrtc::stun::{header, message, Class, Error, Header, Message, Method, ParseError, TransactionId};

#[test]
fn parse_header() {
    let input = vec![
        0x_01, 0x_01, 0x_00, 0x_00,
        0x_21, 0x_12, 0x_A4, 0x_42,
        0x_00, 0x_00, 0x_00, 0x_00,
        0x_00, 0x_00, 0x_00, 0x_00,
        0x_00, 0x_00, 0x_00, 0x_00,
    ];
    let expected = Header {
        class: Class::Success,
        method: Method::Binding,
        length: 0,
        transaction_id: TransactionId::from_bytes([0, 0, 0, 0, 0, 0, 0, 0, 0, 0, 0, 0]),
    };
    let actual = header(&input).unwrap().0;
    assert_eq!(expected, actual);
}

#[test]
fn serialize_header() {
    let header = Header {
        class: Class::Success,
        method: Method::Binding,
        length: 0,
        transaction_id: TransactionId::from_bytes([0, 0, 0, 0, 0, 0, 0, 0, 0, 0, 0, 0]),
    };
    let expected = vec![
        0x_01, 0x_01, 0x_00, 0x_00,
        0x_21, 0x_12, 0x_A4, 0x_42,
        0x_00, 0x_00, 0x_00, 0x_00,
        0x_00, 0x_00, 0x_00, 0x_00,
        0x_00, 0x_00, 0x_00, 0x_00,
    ];
    let actual = header.to_bytes();
    assert_eq!(expected, actual);
}

#[test]
fn with_message_integrity() {
    let message = Message::base(Header {
        class: Class::Success,
        method: Method::Binding,
        length: 0,
        transaction_id: TransactionId::from_bytes([0, 0, 0, 0, 0, 0, 0, 0, 0, 0, 0, 0]),
    })
    .with_message_integrity(&[1, 2, 3, 4]);

    assert_eq!(message.header.length, 24);
}

#[test]
fn with_attributes_and_message_integrity() {
    let message = Message::base(Header {
        class: Class::Success,
        method: Method::Binding,
        length: 0,
        transaction_id: TransactionId::from_bytes([0, 0, 0, 0, 0, 0, 0, 0, 0, 0, 0, 0]),
    })
    .with_attributes(vec![Attribute::username("knuth")])
    .with_message_integrity(&[1, 2, 3, 4]);

    assert_eq!(message.header.length, 36);
}

fn round_trip(input: &[u8]) -> Attribute {
    let (attribute, consumed) =
        webrtc::stun::attribute::parse_attribute(input, 0, input.len()).unwrap();
    assert_eq!(consumed, input.len());
    let attribute_bytes = attribute.to_bytes();
    assert_eq!(attribute_bytes, input);
    attribute
}

#[test]
fn username_round_trip_bytes() {
    let input = [
        0x_00, 0x_06, 0x_00, 0x_07,
        0x_6D, 0x_63, 0x_68, 0x_6C,
        0x_72, 0x_68, 0x_77, 0x_00,
    ];
    let attribute = round_trip(&input);
    assert_eq!(attribute, Attribute::username("mchlrhw"));
}

#[test]
fn priority_round_trip_bytes() {
    let input = [
        0x_00, 0x_24, 0x_00, 0x_04,
        0x_DE, 0x_AD, 0x_BE, 0x_EF,
    ];
    let attribute = round_trip(&input);
    assert_eq!(attribute, Attribute::Priority(webrtc::stun::attribute::Priority(0xDEADBEEF)));
}

#[test]
fn use_candidate_round_trip_bytes() {
    let input = [
        0x_00, 0x_25, 0x_00, 0x_00,
    ];
    let attribute = round_trip(&input);
    assert_eq!(attribute, Attribute::UseCandidate(webrtc::stun::attribute::UseCandidate));
}

#[test]
fn comprehension_optional_round_trip_bytes() {
    let input = [
        0x_80, 0x_29, 0x_00, 0x_04,
        0x_DE, 0x_AD, 0x_BE, 0x_EF,
    ];
    let attribute = round_trip(&input);
    assert_eq!(
        attribute,
        Attribute::ComprehensionOptional(ComprehensionOptional::new(
            0x8029,
            vec![0xDE, 0xAD, 0xBE, 0xEF],
        ))
    );
}

#[test]
fn fingerprint_round_trip_bytes() {
    let input = [
        0x_80, 0x_28, 0x_00, 0x_04,
        0x_DE, 0x_AD, 0x_BE, 0x_EF,
    ];
    let attribute = round_trip(&input);
    assert_eq!(
        attribute,
        Attribute::Fingerprint(webrtc::stun::attribute::Fingerprint(0xDEADBEEF ^ 0x5354554E))
    );
}

#[test]
fn message_integrity_round_trip_bytes() {
    let input = [
        0x_00, 0x_08, 0x_00, 0x_14,
        0x_DE, 0x_AD, 0x_BE, 0x_EF,
        0x_CA, 0x_FE, 0x_BA, 0x_BE,
        0x_CA, 0x_FE, 0x_D0, 0x_0D,
        0x_FE, 0x_E1, 0x_DE, 0x_AD,
        0x_FE, 0x_ED, 0x_FA, 0x_CE,
    ];
    round_trip(&input);
}

#[test]
fn error_code_round_trip_bytes() {
    let input = [
        0x_00, 0x_09, 0x_00, 0x_0B,
        0x_00, 0x_00, 0x_03, 0x_00,
        0x_6D, 0x_63, 0x_68, 0x_6C,
        0x_72, 0x_68, 0x_77, 0x_00,
    ];
    let attribute = round_trip(&input);
    assert_eq!(
        attribute,
        Attribute::ErrorCode(ErrorCode::new(NumericCode::TryAlternate, "mchlrhw"))
    );
}

#[test]
fn xor_mapped_address_round_trip_bytes() {
    let input = [
        0x_00, 0x_20, 0x_00, 0x_08,
        0x_00, 0x_01, 0x_BE, 0x_EF,
        0x_C0, 0x_01, 0x_D0, 0x_0D,
    ];
    let attribute = round_trip(&input);
    assert_eq!(
        attribute,
        Attribute::xor_mapped_address(
            Ip4Addr::new(0xC0 ^ 0x21, 0x01 ^ 0x12, 0xD0 ^ 0xA4, 0x0D ^ 0x42),
            0xBEEF ^ 0x2112,
        )
    );
}

#[test]
fn message_round_trips_through_bytes() {
    let m = Message::base(Header::new(
        Method::Binding,
        Class::Request,
        TransactionId::from_bytes([1, 2, 3, 4, 5, 6, 7, 8, 9, 10, 11, 12]),
    ))
    .with_attributes(vec![
        Attribute::username("knuth"),
        Attribute::xor_mapped_address(Ip4Addr::new(192, 168, 0, 1), 40000),
        Attribute::Priority(webrtc::stun::attribute::Priority(7)),
        Attribute::UseCandidate(webrtc::stun::attribute::UseCandidate),
    ]);
    let bytes = m.to_bytes();
    let (back, consumed) = message(&bytes).unwrap();
    assert_eq!(consumed, bytes.len());
    assert_eq!(back, m);
}

#[test]
fn attribute_length_counts_value_bytes_only() {
    let a = Attribute::username("mchlrhw");
    assert_eq!(a.length(), 7);
    assert_eq!(a.to_bytes().len(), 4 + 8);
    let b = Attribute::username("abcd");
    assert_eq!(b.length(), 4);
    assert_eq!(b.to_bytes().len(), 4 + 4);
    let c = Attribute::xor_mapped_address(Ip4Addr::new(1, 2, 3, 4), 5);
    assert_eq!(c.length(), 8);
    assert_eq!(c.to_bytes().len(), 12);
}

#[test]
fn message_integrity_matches_direct_hmac() {
    let key = [1u8, 2, 3, 4];
    let m = Message::base(Header::new(
        Method::Binding,
        Class::Success,
        TransactionId::from_bytes([0; 12]),
    ))
    .with_attributes(vec![Attribute::username("knuth")])
    .with_message_integrity(&key);

    // The HMAC covers the serialization with the length field already
    // counting the MESSAGE-INTEGRITY attribute.
    let mut prefix = Message::base(Header::new(
        Method::Binding,
        Class::Success,
        TransactionId::from_bytes([0; 12]),
    ))
    .with_attributes(vec![Attribute::username("knuth")]);
    prefix.header.length += 24;
    let mut mac = Hmac::new(Sha1::new(), &key);
    mac.input(&prefix.to_bytes());
    let expected = mac.result().code().to_vec();

    match m.attributes.last().unwrap() {
        Attribute::MessageIntegrity(mi) => assert_eq!(mi.0.to_vec(), expected),
        other => panic!("expected MESSAGE-INTEGRITY, got {:?}", other),
    }
}

#[test]
fn fingerprint_matches_direct_crc() {
    let key = [9u8, 9, 9];
    let m = Message::base(Header::new(
        Method::Binding,
        Class::Success,
        TransactionId::from_bytes([7; 12]),
    ))
    .with_attributes(vec![Attribute::username("knuth")])
    .with_message_integrity(&key)
    .with_fingerprint();

    let mut prefix = Message::base(Header::new(
        Method::Binding,
        Class::Success,
        TransactionId::from_bytes([7; 12]),
    ))
    .with_attributes(vec![Attribute::username("knuth")])
    .with_message_integrity(&key);
    prefix.header.length += 8;
    let expected = crc::crc32::checksum_ieee(&prefix.to_bytes());

    match m.attributes.last().unwrap() {
        Attribute::Fingerprint(fp) => {
            assert_eq!(fp.0, expected);
            // On the wire the checksum is XORed with the STUN magic value.
            let wire = m.to_bytes();
            let n = wire.len();
            let stored = u32::from_be_bytes([wire[n - 4], wire[n - 3], wire[n - 2], wire[n - 1]]);
            assert_eq!(stored, expected ^ 0x5354554E);
        },
        other => panic!("expected FINGERPRINT, got {:?}", other),
    }
    assert_eq!(m.header.length, prefix.header.length);
}

#[test]
fn fingerprint_raises_length_by_eight() {
    let before = Message::base(Header::new(
        Method::Binding,
        Class::Success,
        TransactionId::from_bytes([0; 12]),
    ))
    .with_attributes(vec![Attribute::username("knuth")]);
    let len_before = before.header.length;
    let after = before.with_fingerprint();
    assert_eq!(after.header.length, len_before + 8);
}

#[test]
fn unknown_comprehension_required_attribute_is_refused() {
    // MAPPED-ADDRESS is not implemented: the parser must refuse it.
    let input = [0x00, 0x01, 0x00, 0x00];
    let err = webrtc::stun::attribute::parse_attribute(&input, 0, input.len()).unwrap_err();
    assert_eq!(err, ParseError::Stun(Error::UnimplementedAttribute(0x0001)));
}

#[test]
fn unknown_method_is_refused() {
    // Method code 2 is reserved and unknown.
    let input = [
        0x00, 0x02, 0x00, 0x00, 0x21, 0x12, 0xA4, 0x42, 0, 0, 0, 0, 0, 0, 0, 0, 0, 0, 0, 0,
    ];
    let err = header(&input).unwrap_err();
    assert_eq!(err, ParseError::Stun(Error::InvalidMethod(2)));
}

#[test]
fn unknown_error_code_is_refused() {
    // Class 3, number 99: numeric code 399 is not a recognized code.
    let input = [
        0x00, 0x09, 0x00, 0x04, 0x00, 0x00, 0x03, 0x63,
    ];
    let err = webrtc::stun::attribute::parse_attribute(&input, 0, input.len()).unwrap_err();
    assert_eq!(err, ParseError::Stun(Error::InvalidErrorCode(399)));
}

#[test]
fn wrong_message_integrity_length_is_refused() {
    let input = [0x00, 0x08, 0x00, 0x04, 1, 2, 3, 4];
    let err = webrtc::stun::attribute::parse_attribute(&input, 0, input.len()).unwrap_err();
    assert_eq!(err, ParseError::Stun(Error::InvalidMessageIntegrity(vec![1, 2, 3, 4])));
}

#[test]
fn truncated_input_is_malformed() {
    let input = [0x01, 0x01, 0x00];
    assert_eq!(header(&input).unwrap_err(), ParseError::Malformed);
    assert_eq!(message(&input).unwrap_err(), ParseError::Malformed);
}

#[test]
fn trailing_bytes_inside_length_are_refused() {
    // Header claims three body bytes: no attribute fits in three bytes.
    let input = [
        0x00, 0x01, 0x00, 0x03, 0x21, 0x12, 0xA4, 0x42, 0, 0, 0, 0, 0, 0, 0, 0, 0, 0, 0, 0, 0,
        0, 0,
    ];
    assert_eq!(message(&input).unwrap_err(), ParseError::Malformed);
}

#[test]
fn bad_magic_cookie_is_malformed() {
    let input = [
        0x00, 0x01, 0x00, 0x00, 0x21, 0x12, 0xA4, 0x43, 0, 0, 0, 0, 0, 0, 0, 0, 0, 0, 0, 0,
    ];
    assert_eq!(header(&input).unwrap_err(), ParseError::Malformed);
}

#[test]
fn invalid_utf8_username_is_malformed() {
    let input = [0x00, 0x06, 0x00, 0x02, 0xFF, 0xFE, 0x00, 0x00];
    let err = webrtc::stun::attribute::parse_attribute(&input, 0, input.len()).unwrap_err();
    assert_eq!(err, ParseError::Malformed);
}

#[test]
fn transaction_id_from_wrong_slice_is_refused() {
    let err = TransactionId::try_from_slice(&[1, 2, 3]).unwrap_err();
    assert_eq!(err, Error::InvalidTransactionId(vec![1, 2, 3]));
    let ok = TransactionId::try_from_slice(&[1, 2, 3, 4, 5, 6, 7, 8, 9, 10, 11, 12]).unwrap();
    assert_eq!(ok, TransactionId::from_bytes([1, 2, 3, 4, 5, 6, 7, 8, 9, 10, 11, 12]));
}

#[test]
fn username_accessor_returns_the_name() {
    let u = Username::new("mchlrhw");
    assert_eq!(u.as_str(), "mchlrhw");
}

#[test]
fn random_transaction_ids_are_twelve_bytes() {
    let t = TransactionId::new();
    assert_eq!(t.0.len(), 12);
}
