//! Round-trip laws of the STUN codec: parsing the serialization of a
//! well-formed header, attribute, attribute list or message gives back
//! exactly the value that was serialized, and the TLV length bookkeeping
//! matches the wire.

use vstd::prelude::*;

use crate::stun::attribute::{
    attr_bytes, attr_len, attr_typ, attr_value_bytes, attrs_bytes, lemma_numeric_code_roundtrip, numeric_code_val, parse_attr_s, parse_attrs_s, AttributeV,
};
use crate::stun::{
    class_code, header_bytes, lemma_msg_type_roundtrip, message_bytes, method_code,
    method_from_code, msg_type_of, parse_header_s, parse_message_s, HeaderV, MessageV,
    ParseErrorV, MAGIC_COOKIE,
};
use crate::wire::{
    be16, be16_val, be32, be32_val, lemma_be16_roundtrip, lemma_be32_roundtrip,
    lemma_xor_involution_u16, lemma_xor_involution_u32, lemma_xor_involution_u8, pad4, round_up4,
    };

verus! {

/// A method's code reads back as that method.
pub proof fn lemma_method_code_roundtrip(m: crate::stun::Method)
    ensures
        method_from_code(method_code(m)) == Some(m),
{
}

/// A class's code reads back as that class.
pub proof fn lemma_class_code_roundtrip(c: crate::stun::Class)
    ensures
        crate::stun::class_from_code(class_code(c)) == Some(c),
{
}

/// The length bookkeeping of the TLV wire form: a serialized attribute
/// spans 4 header bytes plus its value length rounded up to a 4-byte
/// multiple, while the 16-bit length field stores the unrounded value.
pub proof fn lemma_attr_bytes_len(a: AttributeV)
    requires
        a.wf(),
    ensures
        attr_len(a) <= 65535,
        attr_bytes(a).len() == 4 + round_up4(attr_len(a)),
        attr_bytes(a).subrange(2, 4) == be16(attr_len(a) as u16),
{
    assert(attr_len(a) <= 65535);
    assert(attr_bytes(a).len() == 4 + attr_len(a) + pad4(attr_len(a)));
    assert(attr_bytes(a).subrange(2, 4) =~= be16(attr_len(a) as u16));
}

/// Parsing the serialized header at the front of a longer buffer gives back
/// the header and consumes its 20 bytes.
pub proof fn lemma_header_roundtrip(b: Seq<u8>, h: HeaderV)
    requires
        h.wf(),
        20 <= b.len(),
        b.subrange(0, 20) == header_bytes(h),
    ensures
        parse_header_s(b) == Ok::<(HeaderV, int), ParseErrorV>((h, 20int)),
{
    let hb = header_bytes(h);
    assert(hb.len() == 20);
    assert forall|k: int| 0 <= k < 20 implies b[k] == hb[k] by {
        assert(b.subrange(0, 20)[k] == b[k]);
    }
    let mt = msg_type_of(h.method, h.class);
    lemma_msg_type_roundtrip(h.method, h.class);
    assert(hb[0] == be16(mt)[0]);
    assert(hb[1] == be16(mt)[1]);
    lemma_be16_roundtrip(mt);
    assert(be16_val(b[0], b[1]) == mt);
    lemma_method_code_roundtrip(h.method);
    lemma_class_code_roundtrip(h.class);
    assert(hb[2] == be16(h.length)[0]);
    assert(hb[3] == be16(h.length)[1]);
    lemma_be16_roundtrip(h.length);
    assert(b.subrange(4, 8) =~= be32(MAGIC_COOKIE));
    assert(b.subrange(8, 20) =~= h.transaction_id);
}

/// Parsing a serialized attribute inside a window that covers it gives back
/// the attribute and consumes exactly its wire bytes.
pub proof fn lemma_attr_roundtrip(b: Seq<u8>, i: int, end: int, a: AttributeV)
    requires
        a.wf(),
        0 <= i,
        i + attr_bytes(a).len() <= end <= b.len(),
        b.subrange(i, i + attr_bytes(a).len()) == attr_bytes(a),
    ensures
        parse_attr_s(b, i, end) == Ok::<(AttributeV, int), ParseErrorV>(
            (a, i + attr_bytes(a).len()),
        ),
{
    let ab = attr_bytes(a);
    let vb = attr_value_bytes(a);
    let len = attr_len(a) as int;
    let typ = attr_typ(a);
    assert(ab.len() == 4 + len + pad4(len as nat));
    assert forall|k: int| 0 <= k < ab.len() implies b[i + k] == ab[k] by {
        assert(b.subrange(i, i + ab.len())[k] == b[i + k]);
    }
    assert(ab[0] == be16(typ)[0]);
    assert(ab[1] == be16(typ)[1]);
    lemma_be16_roundtrip(typ);
    assert(len <= 65535);
    assert(ab[2] == be16(len as u16)[0]);
    assert(ab[3] == be16(len as u16)[1]);
    lemma_be16_roundtrip(len as u16);
    let vstart = i + 4;
    let vend = vstart + len;
    let cend = vend + pad4(len as nat);
    assert(cend == i + ab.len());
    assert forall|k: int| 0 <= k < len implies b[vstart + k] == vb[k] by {
        assert(ab[4 + k] == vb[k]);
    }
    assert(b.subrange(vstart, vend) =~= vb);
    match a {
        AttributeV::Username { name } => {
            vstd::utf8::encode_utf8_valid_utf8(name);
            vstd::utf8::encode_utf8_decode_utf8(name);
        },
        AttributeV::MessageIntegrity { tag } => {
            assert(b.subrange(vstart, vend) =~= tag);
        },
        AttributeV::ErrorCode { code, reason } => {
            let cv = numeric_code_val(code);
            lemma_numeric_code_roundtrip(code);
            let enc = ((cv / 100) * 256 + cv % 100) as u32;
            assert(vb[0] == be32(enc)[0]);
            assert(vb[1] == be32(enc)[1]);
            assert(vb[2] == be32(enc)[2]);
            assert(vb[3] == be32(enc)[3]);
            lemma_be32_roundtrip(enc);
            assert(be32_val(b[vstart], b[vstart + 1], b[vstart + 2], b[vstart + 3]) == enc);
            assert((enc / 256) % 8 == cv / 100);
            assert(enc % 256 == cv % 100);
            assert(((enc / 256) % 8) * 100 + enc % 256 == cv);
            assert forall|k: int| 0 <= k < encode_len(reason) implies b[vstart + 4 + k]
                == vstd::utf8::encode_utf8(reason)[k] by {
                assert(vb[4 + k] == vstd::utf8::encode_utf8(reason)[k]);
            }
            assert(b.subrange(vstart + 4, vend) =~= vstd::utf8::encode_utf8(reason));
            vstd::utf8::encode_utf8_valid_utf8(reason);
            vstd::utf8::encode_utf8_decode_utf8(reason);
        },
        AttributeV::XorMappedAddress { ip, port } => {
            assert(vb[0] == 0 && vb[1] == 1);
            assert(b[vstart + 1] == 1);
            let xp = (port ^ 0x2112) as u16;
            assert(vb[2] == be16(xp)[0]);
            assert(vb[3] == be16(xp)[1]);
            lemma_be16_roundtrip(xp);
            lemma_xor_involution_u16(port, 0x2112);
            lemma_xor_involution_u8(ip[0], 0x21);
            lemma_xor_involution_u8(ip[1], 0x12);
            lemma_xor_involution_u8(ip[2], 0xA4);
            lemma_xor_involution_u8(ip[3], 0x42);
            assert(vb[4] == (ip[0] ^ 0x21));
            assert(vb[5] == (ip[1] ^ 0x12));
            assert(vb[6] == (ip[2] ^ 0xA4));
            assert(vb[7] == (ip[3] ^ 0x42));
            assert(seq![
                (b[vstart + 4] ^ 0x21) as u8,
                (b[vstart + 5] ^ 0x12) as u8,
                (b[vstart + 6] ^ 0xA4) as u8,
                (b[vstart + 7] ^ 0x42) as u8,
            ] =~= ip);
        },
        AttributeV::Fingerprint { value } => {
            let x = (value ^ 0x5354554E) as u32;
            assert(vb[0] == be32(x)[0]);
            assert(vb[1] == be32(x)[1]);
            assert(vb[2] == be32(x)[2]);
            assert(vb[3] == be32(x)[3]);
            lemma_be32_roundtrip(x);
            lemma_xor_involution_u32(value, 0x5354554E);
        },
        AttributeV::Priority { value } => {
            assert(vb[0] == be32(value)[0]);
            assert(vb[1] == be32(value)[1]);
            assert(vb[2] == be32(value)[2]);
            assert(vb[3] == be32(value)[3]);
            lemma_be32_roundtrip(value);
        },
        AttributeV::UseCandidate => {
        },
        AttributeV::ComprehensionOptional { typ: t, value } => {
            assert(b.subrange(vstart, vend) =~= value);
        },
    }
}

/// The number of bytes in the UTF-8 encoding of a character sequence.
pub open spec fn encode_len(s: Seq<char>) -> int {
    vstd::utf8::encode_utf8(s).len() as int
}

/// Parsing a window that holds exactly the serialization of a list of
/// well-formed attributes gives back that list.
pub proof fn lemma_attrs_roundtrip(b: Seq<u8>, i: int, end: int, attrs: Seq<AttributeV>)
    requires
        forall|k: int| 0 <= k < attrs.len() ==> (#[trigger] attrs[k]).wf(),
        0 <= i,
        end == i + attrs_bytes(attrs).len(),
        end <= b.len(),
        b.subrange(i, end) == attrs_bytes(attrs),
    ensures
        parse_attrs_s(b, i, end) == Ok::<Seq<AttributeV>, ParseErrorV>(attrs),
    decreases attrs.len(),
{
    if attrs.len() == 0 {
        assert(parse_attrs_s(b, i, end) == Ok::<Seq<AttributeV>, ParseErrorV>(Seq::empty()));
        assert(Seq::<AttributeV>::empty() =~= attrs);
    } else {
        let a0 = attrs[0];
        let rest = attrs.drop_first();
        assert(attrs_bytes(attrs) == attr_bytes(a0) + attrs_bytes(rest));
        let alen = attr_bytes(a0).len() as int;
        assert(attr_bytes(a0).len() == 4 + attr_len(a0) + pad4(attr_len(a0)));
        assert forall|k: int| 0 <= k < attrs_bytes(attrs).len() implies b[i + k]
            == attrs_bytes(attrs)[k] by {
            assert(b.subrange(i, end)[k] == b[i + k]);
        }
        assert(b.subrange(i, i + alen) =~= attr_bytes(a0));
        lemma_attr_roundtrip(b, i, end, a0);
        let j = i + alen;
        assert forall|k: int| 0 <= k < attrs_bytes(rest).len() implies b.subrange(j, end)[k]
            == attrs_bytes(rest)[k] by {
            assert(attrs_bytes(attrs)[alen + k] == attrs_bytes(rest)[k]);
            assert(b[i + (alen + k)] == attrs_bytes(attrs)[alen + k]);
        }
        assert(b.subrange(j, end) =~= attrs_bytes(rest));
        lemma_attrs_roundtrip(b, j, end, rest);
        assert(parse_attrs_s(b, i, end) == Ok::<Seq<AttributeV>, ParseErrorV>(seq![a0] + rest));
        assert(seq![a0] + rest =~= attrs);
    }
}

/// Parsing the serialization of a well-formed message, possibly followed by
/// further bytes, gives back exactly that message and reports how many bytes
/// it spans. In particular `parse(serialize(m)) == m`.
pub proof fn lemma_message_roundtrip(b: Seq<u8>, m: MessageV)
    requires
        m.wf(),
        message_bytes(m).len() <= b.len(),
        b.subrange(0, message_bytes(m).len() as int) == message_bytes(m),
    ensures
        parse_message_s(b) == Ok::<(MessageV, int), ParseErrorV>(
            (m, message_bytes(m).len() as int),
        ),
{
    let mb = message_bytes(m);
    let hb = header_bytes(m.header);
    assert(hb.len() == 20);
    let alen = attrs_bytes(m.attributes).len() as int;
    assert(mb.len() == 20 + alen);
    assert forall|k: int| 0 <= k < mb.len() implies b[k] == mb[k] by {
        assert(b.subrange(0, mb.len() as int)[k] == b[k]);
    }
    assert(b.subrange(0, 20) =~= hb);
    lemma_header_roundtrip(b, m.header);
    assert(m.header.length == alen);
    assert(b.subrange(20, 20 + alen) =~= attrs_bytes(m.attributes));
    lemma_attrs_roundtrip(b, 20, 20 + alen, m.attributes);
}

/// The round-trip law for messages: serializing a well-formed message and
/// parsing the result gives back the message, with every byte consumed.
pub proof fn lemma_message_round_trip(m: MessageV)
    requires
        m.wf(),
    ensures
        parse_message_s(message_bytes(m)) == Ok::<(MessageV, int), ParseErrorV>(
            (m, message_bytes(m).len() as int),
        ),
{
    let mb = message_bytes(m);
    assert(mb.subrange(0, mb.len() as int) =~= mb);
    lemma_message_roundtrip(mb, m);
}

/// The on-wire form of a FINGERPRINT attribute stores the checksum XORed
/// with 0x5354554E, big-endian.
pub proof fn lemma_fingerprint_wire(value: u32)
    ensures
        attr_value_bytes(AttributeV::Fingerprint { value }) == be32(value ^ 0x5354554E),
{
}

/// The on-wire port field of XOR-MAPPED-ADDRESS is the port XORed with
/// 0x2112, big-endian, and the whole attribute round-trips.
pub proof fn lemma_xor_mapped_address_round_trip(ip: Seq<u8>, port: u16)
    requires
        ip.len() == 4,
    ensures
        attr_value_bytes(AttributeV::XorMappedAddress { ip, port }).subrange(2, 4) == be16(
            port ^ 0x2112,
        ),
        parse_attr_s(
            attr_bytes(AttributeV::XorMappedAddress { ip, port }),
            0,
            attr_bytes(AttributeV::XorMappedAddress { ip, port }).len() as int,
        ) == Ok::<(AttributeV, int), ParseErrorV>(
            (
                AttributeV::XorMappedAddress { ip, port },
                attr_bytes(AttributeV::XorMappedAddress { ip, port }).len() as int,
            ),
        ),
{
    let a = AttributeV::XorMappedAddress { ip, port };
    assert(attr_value_bytes(a).subrange(2, 4) =~= be16(port ^ 0x2112));
    let ab = attr_bytes(a);
    assert(ab.subrange(0, ab.len() as int) =~= ab);
    lemma_attr_roundtrip(ab, 0, ab.len() as int, a);
}

} // verus!
