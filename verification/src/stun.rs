//! STUN message codec (RFC 5389): the 20-byte header with its interleaved
//! method and class bits, the magic cookie, the transaction id, and the
//! message as a whole. The attribute TLV codec lives in [`attribute`].
//!
//! Serialization is specified by [`header_bytes`] and [`message_bytes`];
//! parsing is specified by [`parse_header_s`] and [`parse_message_s`], and
//! the executable functions are proved to return exactly what those spec
//! functions say.

pub mod attribute;
pub mod laws;

use vstd::prelude::*;

use crate::entropy;
use crate::wire::{
    be16, be16_val, be32, push_be16, push_be32, read_be16, read_be32, read_bytes,
};
use crate::stun::attribute::{
    attr_bytes, attrs_bytes, parse_attrs_s, Attribute, AttributeV,
};

verus! {

pub const MAGIC_COOKIE: u32 = 0x2112A442;

/// The STUN error taxonomy of this codec.
#[derive(Clone, Debug, PartialEq, Eq)]
pub enum Error {
    InvalidClass(u8),
    InvalidErrorCode(u16),
    InvalidMessageIntegrity(Vec<u8>),
    InvalidMethod(u16),
    InvalidTransactionId(Vec<u8>),
    UnimplementedAttribute(u16),
}

/// Spec-level mirror of [`Error`].
pub enum ErrorV {
    InvalidClass(u8),
    InvalidErrorCode(u16),
    InvalidMessageIntegrity(Seq<u8>),
    InvalidMethod(u16),
    InvalidTransactionId(Seq<u8>),
    UnimplementedAttribute(u16),
}

impl View for Error {
    type V = ErrorV;

    open spec fn view(&self) -> ErrorV {
        match self {
            Error::InvalidClass(c) => ErrorV::InvalidClass(*c),
            Error::InvalidErrorCode(c) => ErrorV::InvalidErrorCode(*c),
            Error::InvalidMessageIntegrity(b) => ErrorV::InvalidMessageIntegrity(b@),
            Error::InvalidMethod(m) => ErrorV::InvalidMethod(*m),
            Error::InvalidTransactionId(b) => ErrorV::InvalidTransactionId(b@),
            Error::UnimplementedAttribute(t) => ErrorV::UnimplementedAttribute(*t),
        }
    }
}

/// A parse failure: either one of the typed STUN errors, or input whose
/// structure does not fit the wire format at all (too short, a wrong tag, a
/// malformed value).
#[derive(Clone, Debug, PartialEq, Eq)]
pub enum ParseError {
    Stun(Error),
    Malformed,
}

/// Spec-level mirror of [`ParseError`].
pub enum ParseErrorV {
    Stun(ErrorV),
    Malformed,
}

impl View for ParseError {
    type V = ParseErrorV;

    open spec fn view(&self) -> ParseErrorV {
        match self {
            ParseError::Stun(e) => ParseErrorV::Stun(e@),
            ParseError::Malformed => ParseErrorV::Malformed,
        }
    }
}

/// The STUN methods this codec recognizes; only Binding is exercised.
#[derive(Clone, Copy, Debug, PartialEq, Eq, Structural)]
pub enum Method {
    Binding,
    Allocate,
    Refresh,
    Send,
    Data,
    CreatePermission,
    ChannelBind,
    Connect,
    ConnectionBind,
    ConnectionAttempt,
    GoogPing,
}

/// The numeric code of a method (RFC 5389 and the IANA registry).
pub open spec fn method_code(m: Method) -> u16 {
    match m {
        Method::Binding => 0x0001,
        Method::Allocate => 0x0003,
        Method::Refresh => 0x0004,
        Method::Send => 0x0006,
        Method::Data => 0x0007,
        Method::CreatePermission => 0x0008,
        Method::ChannelBind => 0x0009,
        Method::Connect => 0x000A,
        Method::ConnectionBind => 0x000B,
        Method::ConnectionAttempt => 0x000C,
        Method::GoogPing => 0x0080,
    }
}

/// The method a numeric code stands for, if any.
pub open spec fn method_from_code(c: u16) -> Option<Method> {
    if c == 0x0001 {
        Some(Method::Binding)
    } else if c == 0x0003 {
        Some(Method::Allocate)
    } else if c == 0x0004 {
        Some(Method::Refresh)
    } else if c == 0x0006 {
        Some(Method::Send)
    } else if c == 0x0007 {
        Some(Method::Data)
    } else if c == 0x0008 {
        Some(Method::CreatePermission)
    } else if c == 0x0009 {
        Some(Method::ChannelBind)
    } else if c == 0x000A {
        Some(Method::Connect)
    } else if c == 0x000B {
        Some(Method::ConnectionBind)
    } else if c == 0x000C {
        Some(Method::ConnectionAttempt)
    } else if c == 0x0080 {
        Some(Method::GoogPing)
    } else {
        None
    }
}

/// The class of a STUN message.
#[derive(Clone, Copy, Debug, PartialEq, Eq, Structural)]
pub enum Class {
    Request,
    Indication,
    Success,
    Error,
}

/// The 2-bit code of a class.
pub open spec fn class_code(c: Class) -> u8 {
    match c {
        Class::Request => 0,
        Class::Indication => 1,
        Class::Success => 2,
        Class::Error => 3,
    }
}

/// The class a 2-bit code stands for.
pub open spec fn class_from_code(c: u8) -> Option<Class> {
    if c == 0 {
        Some(Class::Request)
    } else if c == 1 {
        Some(Class::Indication)
    } else if c == 2 {
        Some(Class::Success)
    } else if c == 3 {
        Some(Class::Error)
    } else {
        None
    }
}

/// The 14-bit message type field: the method's bits interleaved with the
/// class's two bits (RFC 5389, figure 3).
pub open spec fn msg_type_of(m: Method, c: Class) -> u16 {
    (((method_code(m) / 128) * 512) + ((class_code(c) / 2) * 256) + (((method_code(m) / 16) % 8)
        * 32) + ((class_code(c) % 2) * 16) + (method_code(m) % 16)) as u16
}

/// The method bits extracted from a message type field.
pub open spec fn mt_method_bits(mt: u16) -> u16 {
    (((mt / 512) * 128) + (((mt / 32) % 8) * 16) + (mt % 16)) as u16
}

/// The class bits extracted from a message type field.
pub open spec fn mt_class_bits(mt: u16) -> u8 {
    ((((mt / 256) % 2) * 2) + ((mt / 16) % 2)) as u8
}

/// Packing a method and class into the type field and unpacking it again
/// gives back the method's and the class's codes, and the top two bits stay
/// clear.
pub proof fn lemma_msg_type_roundtrip(m: Method, c: Class)
    ensures
        msg_type_of(m, c) < 0x4000,
        mt_method_bits(msg_type_of(m, c)) == method_code(m),
        mt_class_bits(msg_type_of(m, c)) == class_code(c),
{
    let mc = method_code(m);
    let cc = class_code(c);
    assert(cc == 0 || cc == 1 || cc == 2 || cc == 3);
    if mc == 0x0001 {
        assert(mt_method_bits(msg_type_of(m, c)) == mc && mt_class_bits(msg_type_of(m, c)) == cc);
    } else if mc == 0x0003 {
        assert(mt_method_bits(msg_type_of(m, c)) == mc && mt_class_bits(msg_type_of(m, c)) == cc);
    } else if mc == 0x0004 {
        assert(mt_method_bits(msg_type_of(m, c)) == mc && mt_class_bits(msg_type_of(m, c)) == cc);
    } else if mc == 0x0006 {
        assert(mt_method_bits(msg_type_of(m, c)) == mc && mt_class_bits(msg_type_of(m, c)) == cc);
    } else if mc == 0x0007 {
        assert(mt_method_bits(msg_type_of(m, c)) == mc && mt_class_bits(msg_type_of(m, c)) == cc);
    } else if mc == 0x0008 {
        assert(mt_method_bits(msg_type_of(m, c)) == mc && mt_class_bits(msg_type_of(m, c)) == cc);
    } else if mc == 0x0009 {
        assert(mt_method_bits(msg_type_of(m, c)) == mc && mt_class_bits(msg_type_of(m, c)) == cc);
    } else if mc == 0x000A {
        assert(mt_method_bits(msg_type_of(m, c)) == mc && mt_class_bits(msg_type_of(m, c)) == cc);
    } else if mc == 0x000B {
        assert(mt_method_bits(msg_type_of(m, c)) == mc && mt_class_bits(msg_type_of(m, c)) == cc);
    } else if mc == 0x000C {
        assert(mt_method_bits(msg_type_of(m, c)) == mc && mt_class_bits(msg_type_of(m, c)) == cc);
    } else {
        assert(mc == 0x0080);
        assert(mt_method_bits(msg_type_of(m, c)) == mc && mt_class_bits(msg_type_of(m, c)) == cc);
    }
}

/// A 12-byte STUN transaction id; equality is byte-wise.
#[derive(Clone, Copy, Debug, PartialEq, Eq)]
pub struct TransactionId(pub [u8; 12]);

impl View for TransactionId {
    type V = Seq<u8>;

    open spec fn view(&self) -> Seq<u8> {
        self.0@
    }
}

impl TransactionId {
    /// A fresh random transaction id.
    pub fn new() -> (r: TransactionId)
        ensures
            r@.len() == 12,
    {
        TransactionId(entropy::random_bytes_12())
    }

    /// The transaction id over the given bytes.
    pub fn from_bytes(buf: [u8; 12]) -> (r: TransactionId)
        ensures
            r@ == buf@,
    {
        TransactionId(buf)
    }

    /// The transaction id read from a slice, which must hold exactly 12
    /// bytes.
    pub fn try_from_slice(bytes: &[u8]) -> (r: Result<TransactionId, Error>)
        ensures
            bytes@.len() == 12 ==> (r matches Ok(t) && t@ == bytes@),
            bytes@.len() != 12 ==> (r matches Err(e) && e@ == ErrorV::InvalidTransactionId(
                bytes@,
            )),
    {
        if bytes.len() != 12 {
            let copy = read_bytes(bytes, 0, bytes.len());
            assert(copy@ =~= bytes@);
            return Err(Error::InvalidTransactionId(copy));
        }
        let mut buf = [0u8; 12];
        let mut k: usize = 0;
        while k < 12
            invariant
                k <= 12,
                bytes@.len() == 12,
                buf@.len() == 12,
                forall|j: int| 0 <= j < k ==> buf@[j] == bytes@[j],
            decreases 12 - k,
        {
            buf[k] = bytes[k];
            k = k + 1;
        }
        assert(buf@ =~= bytes@);
        Ok(TransactionId(buf))
    }
}

/// The STUN message header: method, class, body length, transaction id.
#[derive(Clone, Debug, PartialEq, Eq)]
pub struct Header {
    pub method: Method,
    pub class: Class,
    pub length: u16,
    pub transaction_id: TransactionId,
}

/// Spec-level value of a [`Header`].
pub struct HeaderV {
    pub method: Method,
    pub class: Class,
    pub length: u16,
    pub transaction_id: Seq<u8>,
}

impl View for Header {
    type V = HeaderV;

    open spec fn view(&self) -> HeaderV {
        HeaderV {
            method: self.method,
            class: self.class,
            length: self.length,
            transaction_id: self.transaction_id@,
        }
    }
}

impl HeaderV {
    /// A well-formed header value: the transaction id is exactly 12 bytes.
    pub open spec fn wf(self) -> bool {
        self.transaction_id.len() == 12
    }
}

/// The 20 header bytes on the wire.
pub open spec fn header_bytes(h: HeaderV) -> Seq<u8> {
    be16(msg_type_of(h.method, h.class)) + be16(h.length) + be32(MAGIC_COOKIE)
        + h.transaction_id
}

impl Header {
    /// A header for a fresh message: zero length until attributes are added.
    pub fn new(method: Method, class: Class, transaction_id: TransactionId) -> (r: Header)
        ensures
            r@ == (HeaderV { method, class, length: 0u16, transaction_id: transaction_id@ }),
    {
        Header { method, class, length: 0, transaction_id }
    }

    /// Serialize the header to its 20 wire bytes.
    pub fn to_bytes(&self) -> (r: Vec<u8>)
        ensures
            r@ == header_bytes(self@),
            r@.len() == 20,
    {
        let m = match self.method {
            Method::Binding => 0x0001u16,
            Method::Allocate => 0x0003,
            Method::Refresh => 0x0004,
            Method::Send => 0x0006,
            Method::Data => 0x0007,
            Method::CreatePermission => 0x0008,
            Method::ChannelBind => 0x0009,
            Method::Connect => 0x000A,
            Method::ConnectionBind => 0x000B,
            Method::ConnectionAttempt => 0x000C,
            Method::GoogPing => 0x0080,
        };
        let c = match self.class {
            Class::Request => 0u8,
            Class::Indication => 1,
            Class::Success => 2,
            Class::Error => 3,
        };
        let mt = ((m / 128) * 512) + (((c / 2) as u16) * 256) + (((m / 16) % 8) * 32) + (((c % 2)
            as u16) * 16) + (m % 16);
        let mut out: Vec<u8> = Vec::new();
        push_be16(&mut out, mt);
        push_be16(&mut out, self.length);
        push_be32(&mut out, MAGIC_COOKIE);
        let mut k: usize = 0;
        while k < 12
            invariant
                k <= 12,
                out@ == be16(msg_type_of(self.method, self.class)) + be16(self.length) + be32(
                    MAGIC_COOKIE,
                ) + self.transaction_id@.take(k as int),
            decreases 12 - k,
        {
            out.push(self.transaction_id.0[k]);
            assert(out@ =~= be16(msg_type_of(self.method, self.class)) + be16(self.length)
                + be32(MAGIC_COOKIE) + self.transaction_id@.take(k + 1));
            k = k + 1;
        }
        assert(self.transaction_id@.take(12) =~= self.transaction_id@);
        out
    }
}

/// Parse the 20-byte header at the front of `b`: the message type field with
/// its two leading zero bits, the length, the magic cookie, and the
/// transaction id. Structural failures are [`ParseErrorV::Malformed`]; an
/// unknown method code is `InvalidMethod`.
pub open spec fn parse_header_s(b: Seq<u8>) -> Result<(HeaderV, int), ParseErrorV> {
    if b.len() < 2 {
        Err(ParseErrorV::Malformed)
    } else {
        let mt = be16_val(b[0], b[1]);
        if mt >= 0x4000 {
            Err(ParseErrorV::Malformed)
        } else {
            let mc = mt_method_bits(mt);
            let cc = mt_class_bits(mt);
            match method_from_code(mc) {
                None => Err(ParseErrorV::Stun(ErrorV::InvalidMethod(mc))),
                Some(method) => match class_from_code(cc) {
                    None => Err(ParseErrorV::Stun(ErrorV::InvalidClass(cc))),
                    Some(class) => {
                        if b.len() < 20 {
                            Err(ParseErrorV::Malformed)
                        } else if b.subrange(4, 8) != be32(MAGIC_COOKIE) {
                            Err(ParseErrorV::Malformed)
                        } else {
                            let length = be16_val(b[2], b[3]);
                            Ok(
                                (
                                    HeaderV {
                                        method,
                                        class,
                                        length,
                                        transaction_id: b.subrange(8, 20),
                                    },
                                    20int,
                                ),
                            )
                        }
                    },
                },
            }
        }
    }
}

/// Parse a STUN message: the header, then exactly `header.length` bytes of
/// attributes, refusing trailing bytes inside that range. Returns the
/// message and how many input bytes it spans.
pub open spec fn parse_message_s(b: Seq<u8>) -> Result<(MessageV, int), ParseErrorV> {
    match parse_header_s(b) {
        Err(e) => Err(e),
        Ok((h, n)) => {
            if b.len() < 20 + h.length {
                Err(ParseErrorV::Malformed)
            } else {
                match parse_attrs_s(b, 20, 20 + h.length as int) {
                    Err(e) => Err(e),
                    Ok(attrs) => Ok(
                        (MessageV { header: h, attributes: attrs }, 20 + h.length as int),
                    ),
                }
            }
        },
    }
}

/// Parse the header at the front of `input`, returning it and the number of
/// bytes it spans: exactly what [`parse_header_s`] says.
pub fn header(input: &[u8]) -> (r: Result<(Header, usize), ParseError>)
    ensures
        match r {
            Ok((h, n)) => parse_header_s(input@) == Ok::<_, ParseErrorV>((h@, n as int)),
            Err(e) => parse_header_s(input@) == Err::<(HeaderV, int), _>(e@),
        },
{
    if input.len() < 2 {
        return Err(ParseError::Malformed);
    }
    let mt = read_be16(input, 0);
    if mt >= 0x4000 {
        return Err(ParseError::Malformed);
    }
    let mc = ((mt / 512) * 128) + (((mt / 32) % 8) * 16) + (mt % 16);
    let cc = ((((mt / 256) % 2) * 2) + ((mt / 16) % 2)) as u8;
    let method = if mc == 0x0001 {
        Method::Binding
    } else if mc == 0x0003 {
        Method::Allocate
    } else if mc == 0x0004 {
        Method::Refresh
    } else if mc == 0x0006 {
        Method::Send
    } else if mc == 0x0007 {
        Method::Data
    } else if mc == 0x0008 {
        Method::CreatePermission
    } else if mc == 0x0009 {
        Method::ChannelBind
    } else if mc == 0x000A {
        Method::Connect
    } else if mc == 0x000B {
        Method::ConnectionBind
    } else if mc == 0x000C {
        Method::ConnectionAttempt
    } else if mc == 0x0080 {
        Method::GoogPing
    } else {
        return Err(ParseError::Stun(Error::InvalidMethod(mc)));
    };
    let class = if cc == 0 {
        Class::Request
    } else if cc == 1 {
        Class::Indication
    } else if cc == 2 {
        Class::Success
    } else {
        Class::Error
    };
    if input.len() < 20 {
        return Err(ParseError::Malformed);
    }
    let cookie = read_be32(input, 4);
    if cookie != MAGIC_COOKIE {
        proof {
            if input@.subrange(4, 8) == be32(MAGIC_COOKIE) {
                assert(input@[4] == be32(MAGIC_COOKIE)[0]);
                assert(input@[5] == be32(MAGIC_COOKIE)[1]);
                assert(input@[6] == be32(MAGIC_COOKIE)[2]);
                assert(input@[7] == be32(MAGIC_COOKIE)[3]);
            }
        }
        return Err(ParseError::Malformed);
    }
    proof {
        assert(input@.subrange(4, 8) =~= be32(MAGIC_COOKIE));
    }
    let length = read_be16(input, 2);
    let mut tid = [0u8; 12];
    let mut k: usize = 0;
    while k < 12
        invariant
            k <= 12,
            input@.len() >= 20,
            tid@.len() == 12,
            forall|j: int| 0 <= j < k ==> tid@[j] == input@[8 + j],
        decreases 12 - k,
    {
        tid[k] = input[8 + k];
        k = k + 1;
    }
    assert(tid@ =~= input@.subrange(8, 20));
    let h = Header { method, class, length, transaction_id: TransactionId(tid) };
    Ok((h, 20))
}

/// A STUN message: a header and its ordered attributes.
#[derive(Clone, Debug, PartialEq, Eq)]
pub struct Message {
    pub header: Header,
    pub attributes: Vec<Attribute>,
}

/// Spec-level value of a [`Message`].
pub struct MessageV {
    pub header: HeaderV,
    pub attributes: Seq<AttributeV>,
}

impl View for Message {
    type V = MessageV;

    open spec fn view(&self) -> MessageV {
        MessageV {
            header: self.header@,
            attributes: self.attributes@.map_values(|a: Attribute| a@),
        }
    }
}

/// The full wire form of a message: header bytes then attribute bytes.
pub open spec fn message_bytes(m: MessageV) -> Seq<u8> {
    header_bytes(m.header) + attrs_bytes(m.attributes)
}

impl MessageV {
    /// A well-formed message value: a well-formed header whose length field
    /// equals the serialized length of the attribute section, and
    /// well-formed attributes.
    pub open spec fn wf(self) -> bool {
        &&& self.header.wf()
        &&& self.header.length == attrs_bytes(self.attributes).len()
        &&& forall|i: int|
            0 <= i < self.attributes.len() ==> (#[trigger] self.attributes[i]).wf()
    }
}

impl MessageV {
    /// Every attribute of the message is well-formed.
    pub open spec fn attrs_wf(self) -> bool {
        forall|i: int| 0 <= i < self.attributes.len() ==> (#[trigger] self.attributes[i]).wf()
    }

    /// The message with its header length field raised by `n`, as the
    /// MESSAGE-INTEGRITY and FINGERPRINT computations pre-adjust it.
    pub open spec fn with_length_raised(self, n: u16) -> MessageV {
        MessageV {
            header: HeaderV {
                length: (self.header.length + n) as u16,
                ..self.header
            },
            attributes: self.attributes,
        }
    }
}

impl Message {
    /// Serialize the message: header bytes, then each attribute in order.
    pub fn to_bytes(&self) -> (r: Vec<u8>)
        requires
            self@.attrs_wf(),
        ensures
            r@ == message_bytes(self@),
    {
        let mut out = self.header.to_bytes();
        let ghost attrs = self@.attributes;
        let mut k: usize = 0;
        while k < self.attributes.len()
            invariant
                k <= self.attributes@.len(),
                attrs == self@.attributes,
                attrs.len() == self.attributes@.len(),
                forall|i: int| 0 <= i < attrs.len() ==> attrs[i] == self.attributes@[i]@,
                forall|i: int| 0 <= i < attrs.len() ==> (#[trigger] attrs[i]).wf(),
                out@ == header_bytes(self@.header) + attrs_bytes(attrs.take(k as int)),
            decreases self.attributes@.len() - k,
        {
            proof {
                assert(attrs[k as int].wf());
                assert(self.attributes@[k as int]@ == attrs[k as int]);
            }
            let mut ab = self.attributes[k].to_bytes();
            out.append(&mut ab);
            proof {
                assert(attrs.take(k + 1) =~= attrs.take(k as int) + seq![attrs[k as int]]);
                attribute::lemma_attrs_bytes_concat(attrs.take(k as int), seq![attrs[k as int]]);
                attribute::lemma_attrs_bytes_singleton(attrs[k as int]);
            }
            k = k + 1;
        }
        proof {
            assert(attrs.take(attrs.len() as int) =~= attrs);
        }
        out
    }

    /// A message over the given header, with no attributes yet.
    pub fn base(header: Header) -> (r: Message)
        ensures
            r@.header == header@,
            r@.attributes == Seq::<AttributeV>::empty(),
    {
        let r = Message { header, attributes: Vec::new() };
        proof {
            assert(r@.attributes =~= Seq::<AttributeV>::empty());
        }
        r
    }

    /// Replace the attributes and recompute the header length field as the
    /// serialized length of the new attribute section.
    pub fn with_attributes(self, attributes: Vec<Attribute>) -> (r: Message)
        requires
            forall|i: int|
                0 <= i < attributes@.len() ==> (#[trigger] attributes@[i]@).wf(),
            attrs_bytes(attributes@.map_values(|a: Attribute| a@)).len() <= u16::MAX,
        ensures
            r@.header == (HeaderV {
                length: attrs_bytes(attributes@.map_values(|a: Attribute| a@)).len() as u16,
                ..self@.header
            }),
            r@.attributes == attributes@.map_values(|a: Attribute| a@),
    {
        let ghost attrs = attributes@.map_values(|a: Attribute| a@);
        let mut length: u16 = 0;
        let mut k: usize = 0;
        while k < attributes.len()
            invariant
                k <= attributes@.len(),
                attrs == attributes@.map_values(|a: Attribute| a@),
                attrs.len() == attributes@.len(),
                forall|i: int| 0 <= i < attrs.len() ==> attrs[i] == attributes@[i]@,
                forall|i: int| 0 <= i < attrs.len() ==> (#[trigger] attrs[i]).wf(),
                attrs_bytes(attrs).len() <= u16::MAX,
                length == attrs_bytes(attrs.take(k as int)).len(),
            decreases attributes@.len() - k,
        {
            proof {
                assert(attrs[k as int].wf());
                assert(attributes@[k as int]@ == attrs[k as int]);
            }
            let ab = attributes[k].to_bytes();
            proof {
                assert(attrs.take(k + 1) =~= attrs.take(k as int) + seq![attrs[k as int]]);
                attribute::lemma_attrs_bytes_concat(attrs.take(k as int), seq![attrs[k as int]]);
                attribute::lemma_attrs_bytes_singleton(attrs[k as int]);
                assert(attrs =~= attrs.take(k + 1) + attrs.skip(k + 1));
                attribute::lemma_attrs_bytes_concat(attrs.take(k + 1), attrs.skip(k + 1));
            }
            length = length + ab.len() as u16;
            k = k + 1;
        }
        proof {
            assert(attrs.take(attrs.len() as int) =~= attrs);
        }
        let mut m = self;
        m.header.length = length;
        m.attributes = attributes;
        m
    }

    /// Append one attribute, adding its serialized length to the header
    /// length field.
    pub fn and_attribute(self, attribute: Attribute) -> (r: Message)
        requires
            attribute@.wf(),
            self@.header.length + attr_bytes(attribute@).len() <= u16::MAX,
        ensures
            r@.header == (HeaderV {
                length: (self@.header.length + attr_bytes(attribute@).len()) as u16,
                ..self@.header
            }),
            r@.attributes == self@.attributes.push(attribute@),
    {
        let ab = attribute.to_bytes();
        let mut m = self;
        m.header.length = m.header.length + ab.len() as u16;
        let ghost before = m.attributes@.map_values(|a: Attribute| a@);
        m.attributes.push(attribute);
        proof {
            assert(m.attributes@.map_values(|a: Attribute| a@) =~= before.push(attribute@));
        }
        m
    }

    /// Append a MESSAGE-INTEGRITY attribute: the header length field is
    /// first raised by the attribute's 24 wire bytes, and the stored code is
    /// the HMAC-SHA1 of the serialized message in that adjusted state, under
    /// the given key.
    pub fn with_message_integrity(self, key: &[u8]) -> (r: Message)
        requires
            self@.attrs_wf(),
            self@.header.length + 24 <= u16::MAX,
        ensures
            r@.header == self@.with_length_raised(24).header,
            r@.attributes == self@.attributes.push(
                AttributeV::MessageIntegrity {
                    tag: crate::crypto::hmac_sha1_of(
                        key@,
                        message_bytes(self@.with_length_raised(24)),
                    ),
                },
            ),
    {
        let mut m = self;
        m.header.length = m.header.length + 24;
        let bytes = m.to_bytes();
        let code = crate::crypto::hmac_sha1(key, bytes.as_slice());
        let mut tag = [0u8; 20];
        let mut k: usize = 0;
        while k < 20
            invariant
                k <= 20,
                code@.len() == 20,
                tag@.len() == 20,
                forall|j: int| 0 <= j < k ==> tag@[j] == code@[j],
            decreases 20 - k,
        {
            tag[k] = code[k];
            k = k + 1;
        }
        assert(tag@ =~= code@);
        let ghost before = m.attributes@.map_values(|a: Attribute| a@);
        let attribute = Attribute::MessageIntegrity(attribute::MessageIntegrity::from_bytes(tag));
        m.attributes.push(attribute);
        proof {
            assert(m.attributes@.map_values(|a: Attribute| a@) =~= before.push(attribute@));
        }
        m
    }

    /// Append a FINGERPRINT attribute: the header length field is first
    /// raised by the attribute's 8 wire bytes, and the stored value is the
    /// CRC-32-IEEE of the serialized message in that adjusted state.
    pub fn with_fingerprint(self) -> (r: Message)
        requires
            self@.attrs_wf(),
            self@.header.length + 8 <= u16::MAX,
        ensures
            r@.header == self@.with_length_raised(8).header,
            r@.attributes == self@.attributes.push(
                AttributeV::Fingerprint {
                    value: crate::crypto::crc32_of(message_bytes(self@.with_length_raised(8))),
                },
            ),
    {
        let mut m = self;
        m.header.length = m.header.length + 8;
        let bytes = m.to_bytes();
        let checksum = crate::crypto::crc32_ieee(bytes.as_slice());
        let ghost before = m.attributes@.map_values(|a: Attribute| a@);
        let attribute = Attribute::Fingerprint(attribute::Fingerprint::new(checksum));
        m.attributes.push(attribute);
        proof {
            assert(m.attributes@.map_values(|a: Attribute| a@) =~= before.push(attribute@));
        }
        m
    }
}

/// Parse a STUN message from the front of `input`: exactly what
/// [`parse_message_s`] says.
pub fn message(input: &[u8]) -> (r: Result<(Message, usize), ParseError>)
    ensures
        match r {
            Ok((m, n)) => parse_message_s(input@) == Ok::<_, ParseErrorV>((m@, n as int)),
            Err(e) => parse_message_s(input@) == Err::<(MessageV, int), _>(e@),
        },
{
    let (h, _) = match header(input) {
        Ok(p) => p,
        Err(e) => {
            return Err(e);
        },
    };
    if input.len() < 20 + h.length as usize {
        return Err(ParseError::Malformed);
    }
    let end: usize = 20 + h.length as usize;
    let attributes = match attribute::parse_attrs(input, 20, end) {
        Ok(a) => a,
        Err(e) => {
            return Err(e);
        },
    };
    let m = Message { header: h, attributes };
    Ok((m, end))
}

} // verus!
