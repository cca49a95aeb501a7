//! STUN attributes (RFC 5389 section 15): the closed sum type, each
//! attribute's TLV serialization, and the attribute parser. The wire form of
//! an attribute is specified by [`attr_bytes`]; parsing is specified by
//! [`parse_attr_s`] and [`parse_attrs_s`].

use vstd::prelude::*;

use vstd::string::StrSliceExecFns;
use vstd::utf8::{decode_utf8, encode_utf8, valid_utf8};

use crate::addr::Ip4Addr;
use crate::stun::{Error, ErrorV, ParseError, ParseErrorV};
use crate::text::string_from_utf8;
use crate::wire::{
    be16, be16_val, be32, be32_val, pad4, push_be16, push_be32, read_be16, read_be32, read_bytes,
    zeros,
};

verus! {

/// The recognized ERROR-CODE values: a closed set drawn from the RFCs.
#[derive(Clone, Copy, Debug, PartialEq, Eq, Structural)]
pub enum NumericCode {
    TryAlternate,
    BadRequest,
    Unauthenticated,
    Forbidden,
    MobilityForbidden,
    UnknownAttribute,
    AllocationMismatch,
    StaleNonce,
    AddressFamilyNotSupported,
    WrongCredentials,
    UnsupportedTransportProtocol,
    PeerAddressFamilyMismatch,
    ConnectionAlreadyExists,
    ConnectionTimeoutOrFailure,
    AllocationQuotaReached,
    RoleConflict,
    ServerError,
    InsufficientCapacity,
}

/// The numeric value of a recognized error code.
pub open spec fn numeric_code_val(c: NumericCode) -> u16 {
    match c {
        NumericCode::TryAlternate => 300,
        NumericCode::BadRequest => 400,
        NumericCode::Unauthenticated => 401,
        NumericCode::Forbidden => 403,
        NumericCode::MobilityForbidden => 405,
        NumericCode::UnknownAttribute => 420,
        NumericCode::AllocationMismatch => 437,
        NumericCode::StaleNonce => 438,
        NumericCode::AddressFamilyNotSupported => 440,
        NumericCode::WrongCredentials => 441,
        NumericCode::UnsupportedTransportProtocol => 442,
        NumericCode::PeerAddressFamilyMismatch => 443,
        NumericCode::ConnectionAlreadyExists => 446,
        NumericCode::ConnectionTimeoutOrFailure => 447,
        NumericCode::AllocationQuotaReached => 486,
        NumericCode::RoleConflict => 487,
        NumericCode::ServerError => 500,
        NumericCode::InsufficientCapacity => 508,
    }
}

/// The recognized error code a numeric value stands for, if any.
pub open spec fn numeric_code_from(v: u16) -> Option<NumericCode> {
    if v == 300 {
        Some(NumericCode::TryAlternate)
    } else if v == 400 {
        Some(NumericCode::BadRequest)
    } else if v == 401 {
        Some(NumericCode::Unauthenticated)
    } else if v == 403 {
        Some(NumericCode::Forbidden)
    } else if v == 405 {
        Some(NumericCode::MobilityForbidden)
    } else if v == 420 {
        Some(NumericCode::UnknownAttribute)
    } else if v == 437 {
        Some(NumericCode::AllocationMismatch)
    } else if v == 438 {
        Some(NumericCode::StaleNonce)
    } else if v == 440 {
        Some(NumericCode::AddressFamilyNotSupported)
    } else if v == 441 {
        Some(NumericCode::WrongCredentials)
    } else if v == 442 {
        Some(NumericCode::UnsupportedTransportProtocol)
    } else if v == 443 {
        Some(NumericCode::PeerAddressFamilyMismatch)
    } else if v == 446 {
        Some(NumericCode::ConnectionAlreadyExists)
    } else if v == 447 {
        Some(NumericCode::ConnectionTimeoutOrFailure)
    } else if v == 486 {
        Some(NumericCode::AllocationQuotaReached)
    } else if v == 487 {
        Some(NumericCode::RoleConflict)
    } else if v == 500 {
        Some(NumericCode::ServerError)
    } else if v == 508 {
        Some(NumericCode::InsufficientCapacity)
    } else {
        None
    }
}

/// The numeric value of a code reads back as the same code.
pub proof fn lemma_numeric_code_roundtrip(c: NumericCode)
    ensures
        numeric_code_from(numeric_code_val(c)) == Some(c),
        300 <= numeric_code_val(c) <= 508,
{
}

/// An attribute in the comprehension-optional range, kept as raw bytes.
#[derive(Clone, Debug, PartialEq, Eq)]
pub struct ComprehensionOptional {
    pub typ: u16,
    pub value: Vec<u8>,
}

/// An ERROR-CODE attribute: a recognized numeric code and a reason phrase.
#[derive(Clone, Debug, PartialEq, Eq)]
pub struct ErrorCode {
    pub numeric_code: NumericCode,
    pub reason_phrase: String,
}

/// A FINGERPRINT attribute holding the plain CRC-32-IEEE checksum; the wire
/// form stores the checksum XORed with 0x5354554E.
#[derive(Clone, Copy, Debug, PartialEq, Eq, Structural)]
pub struct Fingerprint(pub u32);

/// A MESSAGE-INTEGRITY attribute: a 20-byte HMAC-SHA1 code.
#[derive(Clone, Copy, Debug, PartialEq, Eq)]
pub struct MessageIntegrity(pub [u8; 20]);

/// A PRIORITY attribute: a 32-bit big-endian value.
#[derive(Clone, Copy, Debug, PartialEq, Eq, Structural)]
pub struct Priority(pub u32);

/// A USERNAME attribute: a UTF-8 string of at most 513 bytes.
#[derive(Clone, Debug, PartialEq, Eq)]
pub struct Username(pub String);

/// A USE-CANDIDATE attribute: no value.
#[derive(Clone, Copy, Debug, PartialEq, Eq, Structural)]
pub struct UseCandidate;

/// An XOR-MAPPED-ADDRESS attribute: an IPv4 address and port, stored plain;
/// the wire form XORs them with the magic cookie.
#[derive(Clone, Copy, Debug, PartialEq, Eq)]
pub struct XorMappedAddress {
    pub address: Ip4Addr,
    pub port: u16,
}

/// The spec-level value of a STUN attribute.
pub enum AttributeV {
    ComprehensionOptional { typ: u16, value: Seq<u8> },
    ErrorCode { code: NumericCode, reason: Seq<char> },
    Fingerprint { value: u32 },
    MessageIntegrity { tag: Seq<u8> },
    Priority { value: u32 },
    Username { name: Seq<char> },
    UseCandidate,
    XorMappedAddress { ip: Seq<u8>, port: u16 },
}

/// A STUN attribute: the closed sum of the recognized kinds.
#[derive(Clone, Debug, PartialEq, Eq)]
pub enum Attribute {
    ComprehensionOptional(ComprehensionOptional),
    ErrorCode(ErrorCode),
    Fingerprint(Fingerprint),
    MessageIntegrity(MessageIntegrity),
    Priority(Priority),
    Username(Username),
    UseCandidate(UseCandidate),
    XorMappedAddress(XorMappedAddress),
}

impl View for Attribute {
    type V = AttributeV;

    open spec fn view(&self) -> AttributeV {
        match self {
            Attribute::ComprehensionOptional(a) => AttributeV::ComprehensionOptional {
                typ: a.typ,
                value: a.value@,
            },
            Attribute::ErrorCode(a) => AttributeV::ErrorCode {
                code: a.numeric_code,
                reason: a.reason_phrase@,
            },
            Attribute::Fingerprint(a) => AttributeV::Fingerprint { value: a.0 },
            Attribute::MessageIntegrity(a) => AttributeV::MessageIntegrity { tag: a.0@ },
            Attribute::Priority(a) => AttributeV::Priority { value: a.0 },
            Attribute::Username(a) => AttributeV::Username { name: a.0@ },
            Attribute::UseCandidate(_) => AttributeV::UseCandidate,
            Attribute::XorMappedAddress(a) => AttributeV::XorMappedAddress {
                ip: a.address.octets@,
                port: a.port,
            },
        }
    }
}

/// The attribute's 16-bit type code.
pub open spec fn attr_typ(a: AttributeV) -> u16 {
    match a {
        AttributeV::ComprehensionOptional { typ, .. } => typ,
        AttributeV::ErrorCode { .. } => 0x0009,
        AttributeV::Fingerprint { .. } => 0x8028,
        AttributeV::MessageIntegrity { .. } => 0x0008,
        AttributeV::Priority { .. } => 0x0024,
        AttributeV::Username { .. } => 0x0006,
        AttributeV::UseCandidate => 0x0025,
        AttributeV::XorMappedAddress { .. } => 0x0020,
    }
}

/// The attribute's value bytes, before padding.
pub open spec fn attr_value_bytes(a: AttributeV) -> Seq<u8> {
    match a {
        AttributeV::ComprehensionOptional { value, .. } => value,
        AttributeV::ErrorCode { code, reason } => be32(
            ((numeric_code_val(code) / 100) * 256 + numeric_code_val(code) % 100) as u32,
        ) + encode_utf8(reason),
        AttributeV::Fingerprint { value } => be32(value ^ 0x5354554E),
        AttributeV::MessageIntegrity { tag } => tag,
        AttributeV::Priority { value } => be32(value),
        AttributeV::Username { name } => encode_utf8(name),
        AttributeV::UseCandidate => Seq::empty(),
        AttributeV::XorMappedAddress { ip, port } => seq![0u8, 1u8] + be16(port ^ 0x2112) + seq![
            (ip[0] ^ 0x21) as u8,
            (ip[1] ^ 0x12) as u8,
            (ip[2] ^ 0xA4) as u8,
            (ip[3] ^ 0x42) as u8,
        ],
    }
}

/// The attribute's length as reported in the 16-bit length field: value
/// bytes only, excluding padding.
pub open spec fn attr_len(a: AttributeV) -> nat {
    attr_value_bytes(a).len()
}

/// The attribute's full wire form: type, length, value, zero padding to the
/// next 4-byte boundary.
pub open spec fn attr_bytes(a: AttributeV) -> Seq<u8> {
    be16(attr_typ(a)) + be16(attr_len(a) as u16) + attr_value_bytes(a) + zeros(pad4(attr_len(a)))
}

/// The concatenated wire form of a list of attributes.
pub open spec fn attrs_bytes(attrs: Seq<AttributeV>) -> Seq<u8>
    decreases attrs.len(),
{
    if attrs.len() == 0 {
        Seq::empty()
    } else {
        attr_bytes(attrs[0]) + attrs_bytes(attrs.drop_first())
    }
}

pub proof fn lemma_attrs_bytes_concat(s1: Seq<AttributeV>, s2: Seq<AttributeV>)
    ensures
        attrs_bytes(s1 + s2) == attrs_bytes(s1) + attrs_bytes(s2),
    decreases s1.len(),
{
    if s1.len() == 0 {
        assert(s1 + s2 =~= s2);
        assert(attrs_bytes(s1) + attrs_bytes(s2) =~= attrs_bytes(s2));
    } else {
        assert((s1 + s2).drop_first() =~= s1.drop_first() + s2);
        lemma_attrs_bytes_concat(s1.drop_first(), s2);
        assert(attrs_bytes(s1 + s2) =~= attrs_bytes(s1) + attrs_bytes(s2));
    }
}

/// The wire form of a single attribute, as a one-element list.
pub proof fn lemma_attrs_bytes_singleton(a: AttributeV)
    ensures
        attrs_bytes(seq![a]) == attr_bytes(a),
{
    let s = seq![a];
    assert(s.drop_first() =~= Seq::<AttributeV>::empty());
    assert(attrs_bytes(Seq::<AttributeV>::empty()) =~= Seq::<u8>::empty());
    assert(attrs_bytes(s) =~= attr_bytes(a));
}

impl AttributeV {
    /// A well-formed attribute value: its length field fits, its fixed-size
    /// payloads have their exact sizes, and a comprehension-optional type
    /// code lies in the comprehension-optional range away from FINGERPRINT.
    pub open spec fn wf(self) -> bool {
        match self {
            AttributeV::ComprehensionOptional { typ, value } => 0x8000 <= typ && typ != 0x8028
                && value.len() <= 65535,
            AttributeV::ErrorCode { code, reason } => encode_utf8(reason).len() + 4 <= 65535,
            AttributeV::Fingerprint { .. } => true,
            AttributeV::MessageIntegrity { tag } => tag.len() == 20,
            AttributeV::Priority { .. } => true,
            AttributeV::Username { name } => encode_utf8(name).len() <= 513,
            AttributeV::UseCandidate => true,
            AttributeV::XorMappedAddress { ip, .. } => ip.len() == 4,
        }
    }
}

/// The TLV contract every attribute kind meets: a type code, a length field
/// that counts value bytes before padding, and the padded value bytes.
pub trait Tlv {
    spec fn spec_typ(&self) -> u16;

    spec fn spec_len(&self) -> nat;

    spec fn spec_value(&self) -> Seq<u8>;

    spec fn tlv_wf(&self) -> bool;

    fn typ(&self) -> (r: u16)
        ensures
            r == self.spec_typ(),
    ;

    fn length(&self) -> (r: u16)
        requires
            self.tlv_wf(),
        ensures
            r == self.spec_len(),
    ;

    fn value(&self) -> (r: Vec<u8>)
        requires
            self.tlv_wf(),
        ensures
            r@ == self.spec_value(),
    ;

    fn to_bytes(&self) -> (r: Vec<u8>)
        requires
            self.tlv_wf(),
        ensures
            r@ == be16(self.spec_typ()) + be16(self.spec_len() as u16) + self.spec_value(),
    ;
}

/// Zero padding appended to carry a value buffer to the next 4-byte
/// boundary.
fn pad_to_4(v: &mut Vec<u8>)
    ensures
        final(v)@ == old(v)@ + zeros(pad4(old(v)@.len())),
{
    let n = v.len();
    let pad = (4 - n % 4) % 4;
    let mut k: usize = 0;
    while k < pad
        invariant
            k <= pad,
            pad == pad4(old(v)@.len()),
            v@ == old(v)@ + zeros(k as nat),
        decreases pad - k,
    {
        v.push(0u8);
        assert(v@ =~= old(v)@ + zeros((k + 1) as nat));
        k = k + 1;
    }
}

/// The TLV frame around already-padded value bytes.
fn tlv_wire(typ: u16, len: u16, value: &Vec<u8>) -> (r: Vec<u8>)
    ensures
        r@ == be16(typ) + be16(len) + value@,
{
    let mut out: Vec<u8> = Vec::new();
    push_be16(&mut out, typ);
    push_be16(&mut out, len);
    let mut k: usize = 0;
    while k < value.len()
        invariant
            k <= value@.len(),
            out@ == be16(typ) + be16(len) + value@.take(k as int),
        decreases value@.len() - k,
    {
        out.push(value[k]);
        assert(out@ =~= be16(typ) + be16(len) + value@.take(k + 1));
        k = k + 1;
    }
    assert(value@.take(value@.len() as int) =~= value@);
    out
}

impl ComprehensionOptional {
    /// A comprehension-optional attribute over the given type code and raw
    /// value bytes.
    pub fn new(typ: u16, value: Vec<u8>) -> (r: ComprehensionOptional)
        ensures
            r@ == (AttributeV::ComprehensionOptional { typ, value: value@ }),
    {
        ComprehensionOptional { typ, value }
    }
}

impl View for ComprehensionOptional {
    type V = AttributeV;

    open spec fn view(&self) -> AttributeV {
        AttributeV::ComprehensionOptional { typ: self.typ, value: self.value@ }
    }
}

impl Tlv for ComprehensionOptional {
    open spec fn spec_typ(&self) -> u16 {
        self.typ
    }

    open spec fn spec_len(&self) -> nat {
        self.value@.len()
    }

    open spec fn spec_value(&self) -> Seq<u8> {
        self.value@ + zeros(pad4(self.value@.len()))
    }

    open spec fn tlv_wf(&self) -> bool {
        self@.wf()
    }

    fn typ(&self) -> u16 {
        self.typ
    }

    fn length(&self) -> u16 {
        self.value.len() as u16
    }

    fn value(&self) -> Vec<u8> {
        let mut out = self.value.clone();
        assert(out@ =~= self.value@);
        pad_to_4(&mut out);
        out
    }

    fn to_bytes(&self) -> Vec<u8> {
        let v = self.value();
        tlv_wire(self.typ(), self.length(), &v)
    }
}

impl ErrorCode {
    /// An ERROR-CODE attribute over a recognized code and a reason phrase.
    pub fn new(numeric_code: NumericCode, reason_phrase: &str) -> (r: ErrorCode)
        ensures
            r@ == (AttributeV::ErrorCode { code: numeric_code, reason: reason_phrase@ }),
    {
        ErrorCode { numeric_code, reason_phrase: reason_phrase.to_owned() }
    }
}

impl View for ErrorCode {
    type V = AttributeV;

    open spec fn view(&self) -> AttributeV {
        AttributeV::ErrorCode { code: self.numeric_code, reason: self.reason_phrase@ }
    }
}

impl ErrorCode {
    /// The numeric value of the stored code.
    fn code_val(&self) -> (r: u16)
        ensures
            r == numeric_code_val(self.numeric_code),
    {
        match self.numeric_code {
            NumericCode::TryAlternate => 300,
            NumericCode::BadRequest => 400,
            NumericCode::Unauthenticated => 401,
            NumericCode::Forbidden => 403,
            NumericCode::MobilityForbidden => 405,
            NumericCode::UnknownAttribute => 420,
            NumericCode::AllocationMismatch => 437,
            NumericCode::StaleNonce => 438,
            NumericCode::AddressFamilyNotSupported => 440,
            NumericCode::WrongCredentials => 441,
            NumericCode::UnsupportedTransportProtocol => 442,
            NumericCode::PeerAddressFamilyMismatch => 443,
            NumericCode::ConnectionAlreadyExists => 446,
            NumericCode::ConnectionTimeoutOrFailure => 447,
            NumericCode::AllocationQuotaReached => 486,
            NumericCode::RoleConflict => 487,
            NumericCode::ServerError => 500,
            NumericCode::InsufficientCapacity => 508,
        }
    }
}

impl Tlv for ErrorCode {
    open spec fn spec_typ(&self) -> u16 {
        0x0009
    }

    open spec fn spec_len(&self) -> nat {
        4 + encode_utf8(self.reason_phrase@).len()
    }

    open spec fn spec_value(&self) -> Seq<u8> {
        attr_value_bytes(self@) + zeros(pad4(attr_len(self@)))
    }

    open spec fn tlv_wf(&self) -> bool {
        self@.wf()
    }

    fn typ(&self) -> u16 {
        0x0009
    }

    fn length(&self) -> u16 {
        let n = self.reason_phrase.as_str().len();
        (4 + n) as u16
    }

    fn value(&self) -> Vec<u8> {
        let cv = self.code_val();
        let encoded: u32 = (cv / 100) as u32 * 256 + (cv % 100) as u32;
        let mut out: Vec<u8> = Vec::new();
        push_be32(&mut out, encoded);
        let mut rb = self.reason_phrase.as_str().as_bytes_vec();
        out.append(&mut rb);
        assert(out@ =~= attr_value_bytes(self@));
        pad_to_4(&mut out);
        out
    }

    fn to_bytes(&self) -> Vec<u8> {
        let v = self.value();
        tlv_wire(self.typ(), self.length(), &v)
    }
}

impl Fingerprint {
    /// A FINGERPRINT attribute over the plain checksum value.
    pub fn new(value: u32) -> (r: Fingerprint)
        ensures
            r@ == (AttributeV::Fingerprint { value }),
    {
        Fingerprint(value)
    }
}

impl View for Fingerprint {
    type V = AttributeV;

    open spec fn view(&self) -> AttributeV {
        AttributeV::Fingerprint { value: self.0 }
    }
}

impl Tlv for Fingerprint {
    open spec fn spec_typ(&self) -> u16 {
        0x8028
    }

    open spec fn spec_len(&self) -> nat {
        4
    }

    open spec fn spec_value(&self) -> Seq<u8> {
        be32(self.0 ^ 0x5354554E)
    }

    open spec fn tlv_wf(&self) -> bool {
        true
    }

    fn typ(&self) -> u16 {
        0x8028
    }

    fn length(&self) -> u16 {
        4
    }

    fn value(&self) -> Vec<u8> {
        let mut out: Vec<u8> = Vec::new();
        push_be32(&mut out, self.0 ^ 0x5354554E);
        out
    }

    fn to_bytes(&self) -> Vec<u8> {
        let v = self.value();
        tlv_wire(self.typ(), self.length(), &v)
    }
}

impl MessageIntegrity {
    /// A MESSAGE-INTEGRITY attribute over a 20-byte authentication code.
    pub fn from_bytes(tag: [u8; 20]) -> (r: MessageIntegrity)
        ensures
            r@ == (AttributeV::MessageIntegrity { tag: tag@ }),
    {
        MessageIntegrity(tag)
    }

    /// The attribute read from a slice, which must hold exactly 20 bytes.
    pub fn try_from_slice(bytes: &[u8]) -> (r: Result<MessageIntegrity, Error>)
        ensures
            bytes@.len() == 20 ==> (r matches Ok(a) && a@ == (AttributeV::MessageIntegrity {
                tag: bytes@,
            })),
            bytes@.len() != 20 ==> (r matches Err(e) && e@ == ErrorV::InvalidMessageIntegrity(
                bytes@,
            )),
    {
        if bytes.len() != 20 {
            let copy = read_bytes(bytes, 0, bytes.len());
            assert(copy@ =~= bytes@);
            return Err(Error::InvalidMessageIntegrity(copy));
        }
        let mut buf = [0u8; 20];
        let mut k: usize = 0;
        while k < 20
            invariant
                k <= 20,
                bytes@.len() == 20,
                buf@.len() == 20,
                forall|j: int| 0 <= j < k ==> buf@[j] == bytes@[j],
            decreases 20 - k,
        {
            buf[k] = bytes[k];
            k = k + 1;
        }
        assert(buf@ =~= bytes@);
        Ok(MessageIntegrity(buf))
    }
}

impl View for MessageIntegrity {
    type V = AttributeV;

    open spec fn view(&self) -> AttributeV {
        AttributeV::MessageIntegrity { tag: self.0@ }
    }
}

impl Tlv for MessageIntegrity {
    open spec fn spec_typ(&self) -> u16 {
        0x0008
    }

    open spec fn spec_len(&self) -> nat {
        20
    }

    open spec fn spec_value(&self) -> Seq<u8> {
        self.0@
    }

    open spec fn tlv_wf(&self) -> bool {
        true
    }

    fn typ(&self) -> u16 {
        0x0008
    }

    fn length(&self) -> u16 {
        20
    }

    fn value(&self) -> Vec<u8> {
        let mut out: Vec<u8> = Vec::new();
        let mut k: usize = 0;
        while k < 20
            invariant
                k <= 20,
                self.0@.len() == 20,
                out@ == self.0@.take(k as int),
            decreases 20 - k,
        {
            out.push(self.0[k]);
            assert(out@ =~= self.0@.take(k + 1));
            k = k + 1;
        }
        assert(self.0@.take(20) =~= self.0@);
        out
    }

    fn to_bytes(&self) -> Vec<u8> {
        let v = self.value();
        tlv_wire(self.typ(), self.length(), &v)
    }
}

impl Priority {
    /// A PRIORITY attribute over a 32-bit value.
    pub fn new(value: u32) -> (r: Priority)
        ensures
            r@ == (AttributeV::Priority { value }),
    {
        Priority(value)
    }
}

impl View for Priority {
    type V = AttributeV;

    open spec fn view(&self) -> AttributeV {
        AttributeV::Priority { value: self.0 }
    }
}

impl Tlv for Priority {
    open spec fn spec_typ(&self) -> u16 {
        0x0024
    }

    open spec fn spec_len(&self) -> nat {
        4
    }

    open spec fn spec_value(&self) -> Seq<u8> {
        be32(self.0)
    }

    open spec fn tlv_wf(&self) -> bool {
        true
    }

    fn typ(&self) -> u16 {
        0x0024
    }

    fn length(&self) -> u16 {
        4
    }

    fn value(&self) -> Vec<u8> {
        let mut out: Vec<u8> = Vec::new();
        push_be32(&mut out, self.0);
        out
    }

    fn to_bytes(&self) -> Vec<u8> {
        let v = self.value();
        tlv_wire(self.typ(), self.length(), &v)
    }
}

impl Username {
    /// A USERNAME attribute over the given string.
    pub fn new(username: &str) -> (r: Username)
        ensures
            r@ == (AttributeV::Username { name: username@ }),
    {
        Username(username.to_owned())
    }

    /// The stored username.
    pub fn as_str(&self) -> (r: &str)
        ensures
            r@ == self.0@,
    {
        self.0.as_str()
    }
}

impl View for Username {
    type V = AttributeV;

    open spec fn view(&self) -> AttributeV {
        AttributeV::Username { name: self.0@ }
    }
}

impl Tlv for Username {
    open spec fn spec_typ(&self) -> u16 {
        0x0006
    }

    open spec fn spec_len(&self) -> nat {
        encode_utf8(self.0@).len()
    }

    open spec fn spec_value(&self) -> Seq<u8> {
        encode_utf8(self.0@) + zeros(pad4(encode_utf8(self.0@).len()))
    }

    open spec fn tlv_wf(&self) -> bool {
        self@.wf()
    }

    fn typ(&self) -> u16 {
        0x0006
    }

    fn length(&self) -> u16 {
        self.0.as_str().len() as u16
    }

    fn value(&self) -> Vec<u8> {
        let mut out = self.0.as_str().as_bytes_vec();
        pad_to_4(&mut out);
        out
    }

    fn to_bytes(&self) -> Vec<u8> {
        let v = self.value();
        tlv_wire(self.typ(), self.length(), &v)
    }
}

impl View for UseCandidate {
    type V = AttributeV;

    open spec fn view(&self) -> AttributeV {
        AttributeV::UseCandidate
    }
}

impl Tlv for UseCandidate {
    open spec fn spec_typ(&self) -> u16 {
        0x0025
    }

    open spec fn spec_len(&self) -> nat {
        0
    }

    open spec fn spec_value(&self) -> Seq<u8> {
        Seq::empty()
    }

    open spec fn tlv_wf(&self) -> bool {
        true
    }

    fn typ(&self) -> u16 {
        0x0025
    }

    fn length(&self) -> u16 {
        0
    }

    fn value(&self) -> Vec<u8> {
        let out: Vec<u8> = Vec::new();
        assert(out@ =~= Seq::<u8>::empty());
        out
    }

    fn to_bytes(&self) -> Vec<u8> {
        let v = self.value();
        tlv_wire(self.typ(), self.length(), &v)
    }
}

impl XorMappedAddress {
    /// An XOR-MAPPED-ADDRESS attribute over a plain IPv4 address and port.
    pub fn new(address: Ip4Addr, port: u16) -> (r: XorMappedAddress)
        ensures
            r@ == (AttributeV::XorMappedAddress { ip: address.octets@, port }),
    {
        XorMappedAddress { address, port }
    }
}

impl View for XorMappedAddress {
    type V = AttributeV;

    open spec fn view(&self) -> AttributeV {
        AttributeV::XorMappedAddress { ip: self.address.octets@, port: self.port }
    }
}

impl Tlv for XorMappedAddress {
    open spec fn spec_typ(&self) -> u16 {
        0x0020
    }

    open spec fn spec_len(&self) -> nat {
        8
    }

    open spec fn spec_value(&self) -> Seq<u8> {
        attr_value_bytes(self@)
    }

    open spec fn tlv_wf(&self) -> bool {
        true
    }

    fn typ(&self) -> u16 {
        0x0020
    }

    fn length(&self) -> u16 {
        8
    }

    fn value(&self) -> Vec<u8> {
        let mut out: Vec<u8> = Vec::new();
        out.push(0u8);
        out.push(1u8);
        push_be16(&mut out, self.port ^ 0x2112);
        out.push(self.address.octets[0] ^ 0x21);
        out.push(self.address.octets[1] ^ 0x12);
        out.push(self.address.octets[2] ^ 0xA4);
        out.push(self.address.octets[3] ^ 0x42);
        assert(out@ =~= attr_value_bytes(self@));
        out
    }

    fn to_bytes(&self) -> Vec<u8> {
        let v = self.value();
        tlv_wire(self.typ(), self.length(), &v)
    }
}

impl Attribute {
    /// A USERNAME attribute over the given string.
    pub fn username(value: &str) -> (r: Attribute)
        ensures
            r@ == (AttributeV::Username { name: value@ }),
    {
        Attribute::Username(Username::new(value))
    }

    /// An XOR-MAPPED-ADDRESS attribute over a plain IPv4 address and port.
    pub fn xor_mapped_address(address: Ip4Addr, port: u16) -> (r: Attribute)
        ensures
            r@ == (AttributeV::XorMappedAddress { ip: address.octets@, port }),
    {
        Attribute::XorMappedAddress(XorMappedAddress::new(address, port))
    }

    /// The attribute's 16-bit type code.
    pub fn typ(&self) -> (r: u16)
        ensures
            r == attr_typ(self@),
    {
        match self {
            Attribute::ComprehensionOptional(a) => a.typ(),
            Attribute::ErrorCode(a) => a.typ(),
            Attribute::Fingerprint(a) => a.typ(),
            Attribute::MessageIntegrity(a) => a.typ(),
            Attribute::Priority(a) => a.typ(),
            Attribute::Username(a) => a.typ(),
            Attribute::UseCandidate(a) => a.typ(),
            Attribute::XorMappedAddress(a) => a.typ(),
        }
    }

    /// The 16-bit length field: value bytes, excluding padding.
    pub fn length(&self) -> (r: u16)
        requires
            self@.wf(),
        ensures
            r == attr_len(self@),
    {
        match self {
            Attribute::ComprehensionOptional(a) => a.length(),
            Attribute::ErrorCode(a) => a.length(),
            Attribute::Fingerprint(a) => a.length(),
            Attribute::MessageIntegrity(a) => a.length(),
            Attribute::Priority(a) => a.length(),
            Attribute::Username(a) => a.length(),
            Attribute::UseCandidate(a) => a.length(),
            Attribute::XorMappedAddress(a) => a.length(),
        }
    }

    /// The value bytes with their zero padding.
    pub fn value(&self) -> (r: Vec<u8>)
        requires
            self@.wf(),
        ensures
            r@ == attr_value_bytes(self@) + zeros(pad4(attr_len(self@))),
    {
        let r = match self {
            Attribute::ComprehensionOptional(a) => a.value(),
            Attribute::ErrorCode(a) => a.value(),
            Attribute::Fingerprint(a) => a.value(),
            Attribute::MessageIntegrity(a) => a.value(),
            Attribute::Priority(a) => a.value(),
            Attribute::Username(a) => a.value(),
            Attribute::UseCandidate(a) => a.value(),
            Attribute::XorMappedAddress(a) => a.value(),
        };
        assert(r@ =~= attr_value_bytes(self@) + zeros(pad4(attr_len(self@))));
        r
    }

    /// The attribute's full wire form.
    pub fn to_bytes(&self) -> (r: Vec<u8>)
        requires
            self@.wf(),
        ensures
            r@ == attr_bytes(self@),
    {
        let r = match self {
            Attribute::ComprehensionOptional(a) => a.to_bytes(),
            Attribute::ErrorCode(a) => a.to_bytes(),
            Attribute::Fingerprint(a) => a.to_bytes(),
            Attribute::MessageIntegrity(a) => a.to_bytes(),
            Attribute::Priority(a) => a.to_bytes(),
            Attribute::Username(a) => a.to_bytes(),
            Attribute::UseCandidate(a) => a.to_bytes(),
            Attribute::XorMappedAddress(a) => a.to_bytes(),
        };
        assert(r@ =~= attr_bytes(self@));
        r
    }
}

/// Parse one attribute at position `i` of `b`, inside the window that ends
/// at `end`. The type code steers the dispatch; the value and its padding
/// must lie inside the window. Returns the attribute and the position just
/// past its padding.
pub open spec fn parse_attr_s(b: Seq<u8>, i: int, end: int) -> Result<
    (AttributeV, int),
    ParseErrorV,
> {
    if i + 4 > end {
        Err(ParseErrorV::Malformed)
    } else {
        let typ = be16_val(b[i], b[i + 1]);
        let len = be16_val(b[i + 2], b[i + 3]) as int;
        let vstart = i + 4;
        let vend = vstart + len;
        let cend = vend + pad4(len as nat);
        if cend > end {
            Err(ParseErrorV::Malformed)
        } else if typ == 0x0006 {
            let vb = b.subrange(vstart, vend);
            if valid_utf8(vb) {
                Ok((AttributeV::Username { name: decode_utf8(vb) }, cend))
            } else {
                Err(ParseErrorV::Malformed)
            }
        } else if typ == 0x0008 {
            if len != 20 {
                Err(ParseErrorV::Stun(ErrorV::InvalidMessageIntegrity(b.subrange(vstart, vend))))
            } else {
                Ok((AttributeV::MessageIntegrity { tag: b.subrange(vstart, vend) }, cend))
            }
        } else if typ == 0x0009 {
            if len < 4 {
                Err(ParseErrorV::Malformed)
            } else {
                let v32 = be32_val(b[vstart], b[vstart + 1], b[vstart + 2], b[vstart + 3]);
                let code = (((v32 / 256) % 8) * 100 + v32 % 256) as u16;
                match numeric_code_from(code) {
                    None => Err(ParseErrorV::Stun(ErrorV::InvalidErrorCode(code))),
                    Some(nc) => {
                        let rb = b.subrange(vstart + 4, vend);
                        if valid_utf8(rb) {
                            Ok((AttributeV::ErrorCode { code: nc, reason: decode_utf8(rb) }, cend))
                        } else {
                            Err(ParseErrorV::Malformed)
                        }
                    },
                }
            }
        } else if typ == 0x0020 {
            if len < 8 {
                Err(ParseErrorV::Malformed)
            } else if b[vstart + 1] != 1 {
                Err(ParseErrorV::Malformed)
            } else {
                let port = be16_val(b[vstart + 2], b[vstart + 3]) ^ 0x2112;
                let ip = seq![
                    (b[vstart + 4] ^ 0x21) as u8,
                    (b[vstart + 5] ^ 0x12) as u8,
                    (b[vstart + 6] ^ 0xA4) as u8,
                    (b[vstart + 7] ^ 0x42) as u8,
                ];
                Ok((AttributeV::XorMappedAddress { ip, port }, cend))
            }
        } else if typ == 0x0024 {
            if len != 4 {
                Err(ParseErrorV::Malformed)
            } else {
                let value = be32_val(b[vstart], b[vstart + 1], b[vstart + 2], b[vstart + 3]);
                Ok((AttributeV::Priority { value }, cend))
            }
        } else if typ == 0x0025 {
            Ok((AttributeV::UseCandidate, cend))
        } else if typ == 0x8028 {
            if len != 4 {
                Err(ParseErrorV::Malformed)
            } else {
                let x = be32_val(b[vstart], b[vstart + 1], b[vstart + 2], b[vstart + 3]);
                Ok((AttributeV::Fingerprint { value: x ^ 0x5354554E }, cend))
            }
        } else if typ >= 0x8000 {
            Ok((AttributeV::ComprehensionOptional { typ, value: b.subrange(vstart, vend) }, cend))
        } else {
            Err(ParseErrorV::Stun(ErrorV::UnimplementedAttribute(typ)))
        }
    }
}

/// Parse attributes from `i` to exactly `end`; anything that does not fill
/// the window with whole attributes is refused.
pub open spec fn parse_attrs_s(b: Seq<u8>, i: int, end: int) -> Result<
    Seq<AttributeV>,
    ParseErrorV,
>
    decreases end - i,
{
    if i >= end {
        Ok(Seq::empty())
    } else {
        match parse_attr_s(b, i, end) {
            Err(e) => Err(e),
            Ok((a, j)) => {
                if i < j <= end {
                    match parse_attrs_s(b, j, end) {
                        Err(e) => Err(e),
                        Ok(rest) => Ok(seq![a] + rest),
                    }
                } else {
                    Err(ParseErrorV::Malformed)
                }
            },
        }
    }
}

/// Parse one attribute at position `i`, inside the window ending at `end`:
/// exactly what [`parse_attr_s`] says.
pub fn parse_attribute(b: &[u8], i: usize, end: usize) -> (r: Result<
    (Attribute, usize),
    ParseError,
>)
    requires
        i <= end <= b@.len(),
    ensures
        match r {
            Ok((a, j)) => parse_attr_s(b@, i as int, end as int) == Ok::<_, ParseErrorV>(
                (a@, j as int),
            ) && i < j <= end,
            Err(e) => parse_attr_s(b@, i as int, end as int) == Err::<(AttributeV, int), _>(e@),
        },
{
    if end - i < 4 {
        return Err(ParseError::Malformed);
    }
    let typ = read_be16(b, i);
    let len = read_be16(b, i + 2) as usize;
    let padlen = (4 - len % 4) % 4;
    if end - i - 4 < len + padlen {
        return Err(ParseError::Malformed);
    }
    let vstart = i + 4;
    let vend = vstart + len;
    let cend = vend + padlen;
    if typ == 0x0006 {
        let vb = read_bytes(b, vstart, vend);
        match string_from_utf8(vb) {
            Some(s) => {
                proof {
                    vstd::utf8::encode_utf8_decode_utf8(s@);
                }
                Ok((Attribute::Username(Username(s)), cend))
            },
            None => Err(ParseError::Malformed),
        }
    } else if typ == 0x0008 {
        if len != 20 {
            let vb = read_bytes(b, vstart, vend);
            Err(ParseError::Stun(Error::InvalidMessageIntegrity(vb)))
        } else {
            let mut buf = [0u8; 20];
            let mut k: usize = 0;
            while k < 20
                invariant
                    k <= 20,
                    vstart + 20 <= end <= b@.len(),
                    buf@.len() == 20,
                    forall|j: int| 0 <= j < k ==> buf@[j] == b@[vstart + j],
                decreases 20 - k,
            {
                buf[k] = b[vstart + k];
                k = k + 1;
            }
            assert(buf@ =~= b@.subrange(vstart as int, vend as int));
            Ok((Attribute::MessageIntegrity(MessageIntegrity(buf)), cend))
        }
    } else if typ == 0x0009 {
        if len < 4 {
            return Err(ParseError::Malformed);
        }
        let v32 = read_be32(b, vstart);
        let code = ((((v32 / 256) % 8) * 100 + v32 % 256)) as u16;
        let nc = if code == 300 {
            NumericCode::TryAlternate
        } else if code == 400 {
            NumericCode::BadRequest
        } else if code == 401 {
            NumericCode::Unauthenticated
        } else if code == 403 {
            NumericCode::Forbidden
        } else if code == 405 {
            NumericCode::MobilityForbidden
        } else if code == 420 {
            NumericCode::UnknownAttribute
        } else if code == 437 {
            NumericCode::AllocationMismatch
        } else if code == 438 {
            NumericCode::StaleNonce
        } else if code == 440 {
            NumericCode::AddressFamilyNotSupported
        } else if code == 441 {
            NumericCode::WrongCredentials
        } else if code == 442 {
            NumericCode::UnsupportedTransportProtocol
        } else if code == 443 {
            NumericCode::PeerAddressFamilyMismatch
        } else if code == 446 {
            NumericCode::ConnectionAlreadyExists
        } else if code == 447 {
            NumericCode::ConnectionTimeoutOrFailure
        } else if code == 486 {
            NumericCode::AllocationQuotaReached
        } else if code == 487 {
            NumericCode::RoleConflict
        } else if code == 500 {
            NumericCode::ServerError
        } else if code == 508 {
            NumericCode::InsufficientCapacity
        } else {
            return Err(ParseError::Stun(Error::InvalidErrorCode(code)));
        };
        let rb = read_bytes(b, vstart + 4, vend);
        match string_from_utf8(rb) {
            Some(s) => {
                proof {
                    vstd::utf8::encode_utf8_decode_utf8(s@);
                }
                Ok((Attribute::ErrorCode(ErrorCode { numeric_code: nc, reason_phrase: s }), cend))
            },
            None => Err(ParseError::Malformed),
        }
    } else if typ == 0x0020 {
        if len < 8 {
            return Err(ParseError::Malformed);
        }
        if b[vstart + 1] != 1 {
            return Err(ParseError::Malformed);
        }
        let port = read_be16(b, vstart + 2) ^ 0x2112;
        let address = Ip4Addr::new(
            b[vstart + 4] ^ 0x21,
            b[vstart + 5] ^ 0x12,
            b[vstart + 6] ^ 0xA4,
            b[vstart + 7] ^ 0x42,
        );
        Ok((Attribute::XorMappedAddress(XorMappedAddress { address, port }), cend))
    } else if typ == 0x0024 {
        if len != 4 {
            return Err(ParseError::Malformed);
        }
        let value = read_be32(b, vstart);
        Ok((Attribute::Priority(Priority(value)), cend))
    } else if typ == 0x0025 {
        Ok((Attribute::UseCandidate(UseCandidate), cend))
    } else if typ == 0x8028 {
        if len != 4 {
            return Err(ParseError::Malformed);
        }
        let x = read_be32(b, vstart);
        Ok((Attribute::Fingerprint(Fingerprint(x ^ 0x5354554E)), cend))
    } else if typ >= 0x8000 {
        let value = read_bytes(b, vstart, vend);
        Ok((Attribute::ComprehensionOptional(ComprehensionOptional { typ, value }), cend))
    } else {
        Err(ParseError::Stun(Error::UnimplementedAttribute(typ)))
    }
}

/// Parse attributes until the window `[i, end)` is exactly consumed:
/// exactly what [`parse_attrs_s`] says.
pub fn parse_attrs(b: &[u8], i: usize, end: usize) -> (r: Result<Vec<Attribute>, ParseError>)
    requires
        i <= end <= b@.len(),
    ensures
        match r {
            Ok(attrs) => parse_attrs_s(b@, i as int, end as int) == Ok::<_, ParseErrorV>(
                attrs@.map_values(|a: Attribute| a@),
            ),
            Err(e) => parse_attrs_s(b@, i as int, end as int) == Err::<Seq<AttributeV>, _>(e@),
        },
{
    let mut out: Vec<Attribute> = Vec::new();
    let mut pos: usize = i;
    loop
        invariant
            i <= pos <= end <= b@.len(),
            parse_attrs_s(b@, i as int, end as int) == (match parse_attrs_s(
                b@,
                pos as int,
                end as int,
            ) {
                Ok(rest) => Ok::<Seq<AttributeV>, ParseErrorV>(
                    out@.map_values(|a: Attribute| a@) + rest,
                ),
                Err(e) => Err::<Seq<AttributeV>, ParseErrorV>(e),
            }),
        decreases end - pos,
    {
        if pos >= end {
            assert(parse_attrs_s(b@, pos as int, end as int) == Ok::<_, ParseErrorV>(
                Seq::<AttributeV>::empty(),
            ));
            assert(out@.map_values(|a: Attribute| a@) + Seq::<AttributeV>::empty()
                =~= out@.map_values(|a: Attribute| a@));
            return Ok(out);
        }
        match parse_attribute(b, pos, end) {
            Err(e) => {
                return Err(e);
            },
            Ok((a, j)) => {
                let ghost prev = out@.map_values(|x: Attribute| x@);
                out.push(a);
                proof {
                    assert(out@.map_values(|x: Attribute| x@) =~= prev + seq![a@]);
                    assert forall|rest: Seq<AttributeV>| true implies (prev + (seq![a@] + rest))
                        =~= ((prev + seq![a@]) + rest) by {}
                }
                pos = j;
            },
        }
    }
}

} // verus!
