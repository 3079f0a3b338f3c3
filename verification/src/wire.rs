//! The wire format as mathematics: what a buffer of octets decodes to.
//!
//! Every function here takes the whole buffer and an index into it, and
//! gives either the decoded item together with the index behind it, or the
//! error on which decoding stops. The executable decoder in [`crate::asn1`]
//! is verified to compute exactly these functions.

use crate::asn1::{ASN1Type, Error, IpAddr};
use bit_vec::BitVec;
use vstd::prelude::*;
use vstd::utf8::{decode_utf8, valid_utf8};

verus! {

/// The mathematical counterpart of [`crate::asn1::ASN1Value`]: the same
/// variants, with sequences in place of vectors and strings.
pub enum Value {
    EndOfContents,
    Sequence(Seq<Value>),
    Boolean(bool),
    Integer(i64),
    BitString(BitVec),
    OctetString(Seq<char>),
    Null,
    ObjectIdentifier(Seq<u32>),
    ObjectDescription(Seq<char>),
    IPAddress(IpAddr),
    Counter32(u32),
    Gauge32(u32),
    TimeTicks(u32),
    Opaque(Seq<u8>),
    NsapAddress(Seq<u8>),
    Counter64(u64),
    Uinteger32(u32),
    NoSuchObject,
    NoSuchInstance,
    EndOfMibView,
    Trap(Seq<Value>),
}

/// The low 32 bits of a signed number in two's complement: its remainder
/// by 2^32, which is never negative.
pub open spec fn low_32_bits(i: i64) -> u32 {
    (i as int % 0x1_0000_0000) as u32
}

impl Value {
    /// The arcs, of an object identifier alone.
    pub open spec fn as_oid(self) -> Result<Seq<u32>, Error> {
        match self {
            Value::ObjectIdentifier(arcs) => Ok(arcs),
            _ => Err(Error::WrongType),
        }
    }

    /// The address, of an address alone.
    pub open spec fn as_ipaddr(self) -> Result<IpAddr, Error> {
        match self {
            Value::IPAddress(address) => Ok(address),
            _ => Err(Error::WrongType),
        }
    }

    /// The truth value, of a boolean alone.
    pub open spec fn as_bool(self) -> Result<bool, Error> {
        match self {
            Value::Boolean(b) => Ok(b),
            _ => Err(Error::WrongType),
        }
    }

    /// The number, of an integer alone.
    pub open spec fn as_i64(self) -> Result<i64, Error> {
        match self {
            Value::Integer(i) => Ok(i),
            _ => Err(Error::WrongType),
        }
    }

    /// An unsigned 32-bit number: the low 32 bits of an integer, or a tick
    /// count as it is.
    pub open spec fn as_u32(self) -> Result<u32, Error> {
        match self {
            Value::Integer(i) => Ok(low_32_bits(i)),
            Value::TimeTicks(n) => Ok(n),
            _ => Err(Error::WrongType),
        }
    }

    /// The text, of an octet string alone.
    pub open spec fn as_string(self) -> Result<Seq<char>, Error> {
        match self {
            Value::OctetString(text) => Ok(text),
            _ => Err(Error::WrongType),
        }
    }

    /// The items, of a sequence or of the body of a trap.
    pub open spec fn as_sequence(self) -> Result<Seq<Value>, Error> {
        match self {
            Value::Sequence(items) => Ok(items),
            Value::Trap(items) => Ok(items),
            _ => Err(Error::WrongType),
        }
    }
}

/// The outcome of decoding one item: the item and the index of the first
/// octet behind it, or the error.
pub type Parsed<T> = Result<(T, int), Error>;

/// A decoded run of items, with `head` put in front of it.
pub open spec fn after<T>(head: Seq<T>, rest: Parsed<Seq<T>>) -> Parsed<Seq<T>> {
    match rest {
        Ok((tail, last)) => Ok((head + tail, last)),
        Err(e) => Err(e),
    }
}

/// A length as the machine holds it: itself where it fits a `usize`, and
/// the largest `usize` where it does not.
pub open spec fn saturated(length: nat) -> usize {
    if length <= usize::MAX {
        length as usize
    } else {
        usize::MAX
    }
}

/// The type that a tag octet stands for, if it stands for one.
pub open spec fn tag_type(octet: u8) -> Option<ASN1Type> {
    match octet {
        0x00u8 => Some(ASN1Type::EndOfContents),
        0x01u8 => Some(ASN1Type::Boolean),
        0x02u8 => Some(ASN1Type::Integer),
        0x03u8 => Some(ASN1Type::BitString),
        0x04u8 => Some(ASN1Type::OctetString),
        0x05u8 => Some(ASN1Type::Null),
        0x06u8 => Some(ASN1Type::ObjectIdentifier),
        0x07u8 => Some(ASN1Type::ObjectDescription),
        0x30u8 => Some(ASN1Type::Sequence),
        0x40u8 => Some(ASN1Type::IPAddress),
        0x41u8 => Some(ASN1Type::Counter32),
        0x42u8 => Some(ASN1Type::Gauge32),
        0x43u8 => Some(ASN1Type::TimeTicks),
        0x44u8 => Some(ASN1Type::Opaque),
        0x45u8 => Some(ASN1Type::NsapAddress),
        0x46u8 => Some(ASN1Type::Counter64),
        0x47u8 => Some(ASN1Type::Uinteger32),
        0x80u8 => Some(ASN1Type::NoSuchObject),
        0x81u8 => Some(ASN1Type::NoSuchInstance),
        0x82u8 => Some(ASN1Type::EndOfMibView),
        0xa0u8 => Some(ASN1Type::GetRequest),
        0xa1u8 => Some(ASN1Type::GetNextRequest),
        0xa2u8 => Some(ASN1Type::GetResponse),
        0xa3u8 => Some(ASN1Type::SetRequest),
        0xa4u8 => Some(ASN1Type::Trap),
        0xa5u8 => Some(ASN1Type::GetBulkRequest),
        0xa6u8 => Some(ASN1Type::InformRequest),
        0xa7u8 => Some(ASN1Type::SnmpV2Trap),
        0xa8u8 => Some(ASN1Type::Report),
        _ => None,
    }
}

/// The number that `octets` spell in base 256, most significant first.
pub open spec fn be_value(octets: Seq<u8>) -> nat
    decreases octets.len(),
{
    if octets.len() == 0 {
        0
    } else {
        be_value(octets.drop_last()) * 256 + octets.last() as nat
    }
}

/// The payload of an `Integer`: the octets as an unsigned magnitude, of which
/// the low 64 bits are kept and read as an `i64`. The sign bit of the first
/// octet is not extended.
pub open spec fn integer_value(octets: Seq<u8>) -> i64 {
    let low = be_value(octets) % 0x1_0000_0000_0000_0000;
    if low < 0x8000_0000_0000_0000 {
        low as i64
    } else {
        (low - 0x1_0000_0000_0000_0000) as i64
    }
}

/// The payload of a 32-bit counter, gauge or tick count: the low 32 bits of
/// the unsigned magnitude.
pub open spec fn unsigned32_value(octets: Seq<u8>) -> u32 {
    (be_value(octets) % 0x1_0000_0000) as u32
}

/// The payload of a 64-bit counter: the low 64 bits of the unsigned
/// magnitude.
pub open spec fn unsigned64_value(octets: Seq<u8>) -> u64 {
    (be_value(octets) % 0x1_0000_0000_0000_0000) as u64
}

/// The 16-bit group that two octets spell, most significant first.
pub open spec fn group_value(hi: u8, lo: u8) -> u16 {
    (hi as int * 256 + lo as int) as u16
}

/// The address that the content octets spell: four octets are an IPv4
/// address, sixteen are the eight groups of an IPv6 address, and no other
/// length is an address.
pub open spec fn ip_value(octets: Seq<u8>) -> Option<IpAddr> {
    if octets.len() == 4 {
        Some(IpAddr::V4([octets[0], octets[1], octets[2], octets[3]]))
    } else if octets.len() == 16 {
        Some(
            IpAddr::V6(
                [
                    group_value(octets[0], octets[1]),
                    group_value(octets[2], octets[3]),
                    group_value(octets[4], octets[5]),
                    group_value(octets[6], octets[7]),
                    group_value(octets[8], octets[9]),
                    group_value(octets[10], octets[11]),
                    group_value(octets[12], octets[13]),
                    group_value(octets[14], octets[15]),
                ],
            ),
        )
    } else {
        None
    }
}

/// Reading the length field at `pos`.
///
/// A first octet below 127 is the length itself. Any other first octet
/// gives, in its low seven bits, the number of octets that follow and spell
/// the length in base 256. The length is the number they spell, however
/// large. A buffer that ends inside the field is an `IoFailure`.
pub open spec fn spec_read_length(data: Seq<u8>, pos: int) -> Parsed<nat> {
    if !(0 <= pos < data.len()) {
        Err(Error::IoFailure)
    } else {
        let first = data[pos];
        if first < 127 {
            Ok((first as nat, pos + 1))
        } else {
            let count = first as int % 128;
            if pos + 1 + count > data.len() {
                Err(Error::IoFailure)
            } else {
                Ok((be_value(data.subrange(pos + 1, pos + 1 + count)), pos + 1 + count))
            }
        }
    }
}

/// Reading tag and length at `pos`: the tag octet must stand for a known
/// type (`WrongType` otherwise), and the length field follows it.
pub open spec fn spec_read_tag_value(data: Seq<u8>, pos: int) -> Parsed<(ASN1Type, nat)> {
    if !(0 <= pos < data.len()) {
        Err(Error::IoFailure)
    } else {
        match tag_type(data[pos]) {
            None => Err(Error::WrongType),
            Some(kind) => match spec_read_length(data, pos + 1) {
                Err(e) => Err(e),
                Ok((length, content)) => Ok(((kind, length), content)),
            },
        }
    }
}

/// One step of a base-128 number: the accumulator moves up by seven bits and
/// takes the low seven bits of `octet`. Bits that leave the 32-bit
/// accumulator are lost.
pub open spec fn base128_step(acc: u32, octet: u8) -> u32 {
    ((acc as int * 128 + octet as int % 128) % 0x1_0000_0000) as u32
}

/// Reading the rest of a base-128 number at `pos`, when `taken` octets of it
/// have been read into `acc`.
///
/// Octets are taken while their high bit is set. Once five octets have been
/// taken without one that ends the number, reading stops with
/// `UnexpectedValue`. A buffer that ends inside the number is an
/// `IoFailure`.
pub open spec fn spec_read_base128_from(data: Seq<u8>, pos: int, acc: u32, taken: nat) -> Parsed<
    u32,
>
    decreases 5 - taken,
{
    if taken >= 5 {
        Err(Error::UnexpectedValue)
    } else if !(0 <= pos < data.len()) {
        Err(Error::IoFailure)
    } else {
        let octet = data[pos];
        let acc = base128_step(acc, octet);
        if octet < 128 {
            Ok((acc, pos + 1))
        } else {
            spec_read_base128_from(data, pos + 1, acc, taken + 1)
        }
    }
}

/// Reading one base-128 number, the form of every arc of an object
/// identifier but the first two.
pub open spec fn spec_read_base128int(data: Seq<u8>, pos: int) -> Parsed<u32> {
    spec_read_base128_from(data, pos, 0, 0)
}

/// A number read at `pos` ends behind `pos` and inside the buffer.
pub proof fn lemma_base128_advances(data: Seq<u8>, pos: int, acc: u32, taken: nat)
    ensures
        spec_read_base128_from(data, pos, acc, taken) matches Ok((_, next)) ==> pos < next
            <= data.len() && next <= pos + 5 - taken,
    decreases 5 - taken,
{
    if taken < 5 && 0 <= pos < data.len() && data[pos] >= 128 {
        lemma_base128_advances(data, pos + 1, base128_step(acc, data[pos]), taken + 1);
    }
}

/// Reading arcs from `pos` until the index `end` is reached or passed.
pub open spec fn spec_read_arcs(data: Seq<u8>, pos: int, end: int) -> Parsed<Seq<u32>>
    decreases data.len() - pos,
{
    if pos >= end {
        Ok((Seq::empty(), pos))
    } else {
        match spec_read_base128int(data, pos) {
            Err(e) => Err(e),
            Ok((arc, next)) => {
                proof {
                    lemma_base128_advances(data, pos, 0, 0);
                }
                match spec_read_arcs(data, next, end) {
                    Err(e) => Err(e),
                    Ok((arcs, last)) => Ok((seq![arc] + arcs, last)),
                }
            },
        }
    }
}

/// Reading the content of an object identifier of declared length `length`
/// at `pos`.
///
/// The first octet is always read, and gives the two leading arcs: its
/// quotient and its remainder by 40. Base-128 arcs follow until `length`
/// octets or more have been read since `pos`.
pub open spec fn spec_read_oid(data: Seq<u8>, pos: int, length: nat) -> Parsed<Seq<u32>> {
    if !(0 <= pos < data.len()) {
        Err(Error::IoFailure)
    } else {
        let first = data[pos];
        match spec_read_arcs(data, pos + 1, pos + length) {
            Err(e) => Err(e),
            Ok((arcs, next)) => Ok((seq![(first / 40) as u32, (first % 40) as u32] + arcs, next)),
        }
    }
}

/// Decoding the value at `pos`.
///
/// Tag and length come first. A length beyond what is left of the buffer
/// behind them is an `UnexpectedValue`, whatever the tag. The content is then
/// read as the tag asks; the markers without content (`Null`, `EndOfContents`
/// and the three exceptions) leave the content octets, if any were declared,
/// unread. A known tag that has no decoding here is a `WrongType`.
pub open spec fn spec_decode_value(data: Seq<u8>, pos: int) -> Parsed<Value>
    decreases data.len() - pos, 0int,
{
    match spec_read_tag_value(data, pos) {
        Err(e) => Err(e),
        Ok(((kind, length), content)) => if length > data.len() - content {
            Err(Error::UnexpectedValue)
        } else {
            let end = content + length;
            let octets = data.subrange(content, end);
            match kind {
                ASN1Type::Sequence => match spec_read_sequence(data, content, end) {
                    Err(e) => Err(e),
                    Ok((items, next)) => Ok((Value::Sequence(items), next)),
                },
                ASN1Type::Trap => match spec_read_sequence(data, content, end) {
                    Err(e) => Err(e),
                    Ok((items, next)) => Ok((Value::Trap(items), next)),
                },
                ASN1Type::Integer => Ok((Value::Integer(integer_value(octets)), end)),
                ASN1Type::OctetString => if valid_utf8(octets) {
                    Ok((Value::OctetString(decode_utf8(octets)), end))
                } else {
                    Err(Error::WrongType)
                },
                ASN1Type::ObjectIdentifier => match spec_read_oid(data, content, length) {
                    Err(e) => Err(e),
                    Ok((arcs, next)) => Ok((Value::ObjectIdentifier(arcs), next)),
                },
                ASN1Type::IPAddress => match ip_value(octets) {
                    None => Err(Error::UnexpectedValue),
                    Some(address) => Ok((Value::IPAddress(address), end)),
                },
                ASN1Type::Counter32 => Ok((Value::Counter32(unsigned32_value(octets)), end)),
                ASN1Type::Gauge32 => Ok((Value::Gauge32(unsigned32_value(octets)), end)),
                ASN1Type::TimeTicks => Ok((Value::TimeTicks(unsigned32_value(octets)), end)),
                ASN1Type::Counter64 => Ok((Value::Counter64(unsigned64_value(octets)), end)),
                ASN1Type::Opaque => Ok((Value::Opaque(octets), end)),
                ASN1Type::NsapAddress => Ok((Value::NsapAddress(octets), end)),
                ASN1Type::Null => Ok((Value::Null, content)),
                ASN1Type::NoSuchObject => Ok((Value::NoSuchObject, content)),
                ASN1Type::NoSuchInstance => Ok((Value::NoSuchInstance, content)),
                ASN1Type::EndOfMibView => Ok((Value::EndOfMibView, content)),
                ASN1Type::EndOfContents => Ok((Value::EndOfContents, content)),
                _ => Err(Error::WrongType),
            }
        },
    }
}

/// Decoding the children of a container from `pos` until the index `end` is
/// reached or passed. A child may end behind `end`.
///
/// The test that a child ends behind where it began, and inside the buffer,
/// is there for the recursion to be well founded. It never fails: see
/// [`lemma_value_advances`].
pub open spec fn spec_read_sequence(data: Seq<u8>, pos: int, end: int) -> Parsed<Seq<Value>>
    decreases data.len() - pos, 1int,
{
    if pos >= end {
        Ok((Seq::empty(), pos))
    } else {
        match spec_decode_value(data, pos) {
            Err(e) => Err(e),
            Ok((item, next)) => if pos < next <= data.len() {
                match spec_read_sequence(data, next, end) {
                    Err(e) => Err(e),
                    Ok((items, last)) => Ok((seq![item] + items, last)),
                }
            } else {
                Err(Error::UnexpectedValue)
            },
        }
    }
}

/// A decoded value spans at least the two octets of its tag and length, and
/// ends inside the buffer; so do the children of a container.
pub proof fn lemma_value_advances(data: Seq<u8>, pos: int)
    ensures
        spec_decode_value(data, pos) matches Ok((_, next)) ==> pos + 2 <= next <= data.len(),
    decreases data.len() - pos, 0int,
{
    match spec_read_tag_value(data, pos) {
        Err(e) => {},
        Ok(((kind, length), content)) => {
            if length <= data.len() - content {
                match kind {
                    ASN1Type::Sequence => {
                        lemma_sequence_advances(data, content, content + length);
                    },
                    ASN1Type::Trap => {
                        lemma_sequence_advances(data, content, content + length);
                    },
                    ASN1Type::ObjectIdentifier => {
                        lemma_arcs_advance(data, content + 1, content + length);
                    },
                    _ => {},
                }
            }
        },
    }
}

/// The children of a container end at or behind where they begin, and, if
/// they begin inside the buffer, inside it.
pub proof fn lemma_sequence_advances(data: Seq<u8>, pos: int, end: int)
    ensures
        spec_read_sequence(data, pos, end) matches Ok((_, last)) ==> pos <= last && (pos
            <= data.len() ==> last <= data.len()),
    decreases data.len() - pos, 1int,
{
    if pos < end {
        lemma_value_advances(data, pos);
        match spec_decode_value(data, pos) {
            Err(e) => {},
            Ok((item, next)) => {
                lemma_sequence_advances(data, next, end);
            },
        }
    }
}

/// The arcs of an identifier end at or behind where they begin, and, if they
/// begin inside the buffer, inside it.
pub proof fn lemma_arcs_advance(data: Seq<u8>, pos: int, end: int)
    ensures
        spec_read_arcs(data, pos, end) matches Ok((_, last)) ==> pos <= last && (pos <= data.len()
            ==> last <= data.len()),
    decreases data.len() - pos,
{
    if pos < end {
        lemma_base128_advances(data, pos, 0, 0);
        match spec_read_base128int(data, pos) {
            Err(e) => {},
            Ok((arc, next)) => {
                lemma_arcs_advance(data, next, end);
            },
        }
    }
}

/// Whether every object identifier in `v`, at any depth, has two arcs or
/// more.
pub open spec fn oids_have_two_arcs(v: Value) -> bool
    decreases v,
{
    match v {
        Value::ObjectIdentifier(arcs) => arcs.len() >= 2,
        Value::Sequence(items) => forall|i: int|
            #![trigger items[i]]
            0 <= i < items.len() ==> oids_have_two_arcs(items[i]),
        Value::Trap(items) => forall|i: int|
            #![trigger items[i]]
            0 <= i < items.len() ==> oids_have_two_arcs(items[i]),
        _ => true,
    }
}

/// Every object identifier that decoding gives has two arcs or more: its
/// first octet is always read, and always gives two.
pub proof fn lemma_decoded_oids_have_two_arcs(data: Seq<u8>, pos: int)
    ensures
        spec_decode_value(data, pos) matches Ok((v, _)) ==> oids_have_two_arcs(v),
    decreases data.len() - pos, 0int,
{
    match spec_decode_value(data, pos) {
        Err(e) => {},
        Ok((v, _)) => {
            let ((kind, length), content) = spec_read_tag_value(data, pos)->Ok_0;
            match v {
                Value::Sequence(items) => {
                    lemma_decoded_items_have_two_arcs(data, content, content + length);
                    assert(spec_read_sequence(data, content, content + length)->Ok_0.0 == items);
                },
                Value::Trap(items) => {
                    lemma_decoded_items_have_two_arcs(data, content, content + length);
                    assert(spec_read_sequence(data, content, content + length)->Ok_0.0 == items);
                },
                Value::ObjectIdentifier(arcs) => {
                    assert(spec_read_oid(data, content, length)->Ok_0.0 == arcs);
                },
                _ => {},
            }
        },
    }
}

/// Every object identifier among the children of a decoded container has
/// two arcs or more.
pub proof fn lemma_decoded_items_have_two_arcs(data: Seq<u8>, pos: int, end: int)
    ensures
        spec_read_sequence(data, pos, end) matches Ok((items, _)) ==> forall|i: int|
            #![trigger items[i]]
            0 <= i < items.len() ==> oids_have_two_arcs(items[i]),
    decreases data.len() - pos, 1int,
{
    if pos < end {
        lemma_decoded_oids_have_two_arcs(data, pos);
        match spec_decode_value(data, pos) {
            Err(e) => {},
            Ok((item, next)) => {
                if pos < next <= data.len() {
                    lemma_decoded_items_have_two_arcs(data, next, end);
                }
            },
        }
    }
}

/// The children of a container, without the test for progress: where the
/// index `end` is not reached yet, they are the value at `pos` followed by
/// the children from behind that value, and an error of that value is the
/// error of the whole.
pub proof fn lemma_sequence_unfolds(data: Seq<u8>, pos: int, end: int)
    requires
        pos < end,
    ensures
        spec_read_sequence(data, pos, end) == match spec_decode_value(data, pos) {
            Err(e) => Err::<(Seq<Value>, int), Error>(e),
            Ok((item, next)) => after(seq![item], spec_read_sequence(data, next, end)),
        },
{
    lemma_value_advances(data, pos);
}

/// A declared length beyond the end of the buffer is rejected, whatever the
/// tag: where tag and length can be read at `pos` and the length is more
/// than what the buffer holds behind them, the value at `pos` is an
/// `UnexpectedValue`.
pub proof fn lemma_length_beyond_buffer(data: Seq<u8>, pos: int)
    requires
        spec_read_tag_value(data, pos) matches Ok(((_, length), content)) && length > data.len()
            - content,
    ensures
        spec_decode_value(data, pos) == Err::<(Value, int), Error>(Error::UnexpectedValue),
{
}

/// Five octets in a row with the high bit set do not make an arc: reading
/// stops behind the fifth with `UnexpectedValue`, however the buffer goes
/// on.
pub proof fn lemma_unending_arc(data: Seq<u8>, pos: int)
    requires
        0 <= pos,
        pos + 5 <= data.len(),
        forall|i: int| pos <= i < pos + 5 ==> data[i] >= 128,
    ensures
        spec_read_base128int(data, pos) == Err::<(u32, int), Error>(Error::UnexpectedValue),
{
    reveal_with_fuel(spec_read_base128_from, 6);
}

/// Reading arcs can be cut at any index where one arc ends and the next
/// begins: where the arcs from `pos` up to `mid` end exactly at `mid`, the
/// arcs from `pos` up to a later `end` are those, followed by the arcs from
/// `mid` up to `end`.
pub proof fn lemma_arcs_split(data: Seq<u8>, pos: int, mid: int, end: int)
    requires
        mid <= end,
        spec_read_arcs(data, pos, mid) matches Ok((_, last)) && last == mid,
    ensures
        spec_read_arcs(data, pos, end) == after(
            spec_read_arcs(data, pos, mid)->Ok_0.0,
            spec_read_arcs(data, mid, end),
        ),
    decreases data.len() - pos,
{
    let head = spec_read_arcs(data, pos, mid)->Ok_0.0;
    if pos >= mid {
        match spec_read_arcs(data, mid, end) {
            Ok((tail, last)) => {
                assert(head + tail =~= tail);
            },
            Err(e) => {},
        }
    } else {
        lemma_base128_advances(data, pos, 0, 0);
        let (arc, next) = spec_read_base128int(data, pos)->Ok_0;
        lemma_arcs_split(data, next, mid, end);
        let rest = spec_read_arcs(data, next, mid)->Ok_0.0;
        match spec_read_arcs(data, mid, end) {
            Ok((tail, last)) => {
                assert(seq![arc] + (rest + tail) =~= (seq![arc] + rest) + tail);
            },
            Err(e) => {},
        }
    }
}

/// An object identifier with an arc that runs over five octets with the high
/// bit set is rejected with `UnexpectedValue`, wherever in the identifier
/// that arc stands: `arc` is an index inside the declared content at which
/// the arcs before it end.
pub proof fn lemma_unending_arc_in_oid(data: Seq<u8>, pos: int, length: nat, arc: int)
    requires
        0 <= pos < arc < pos + length,
        spec_read_arcs(data, pos + 1, arc) matches Ok((_, last)) && last == arc,
        arc + 5 <= data.len(),
        forall|i: int| arc <= i < arc + 5 ==> data[i] >= 128,
    ensures
        spec_read_oid(data, pos, length) == Err::<(Seq<u32>, int), Error>(Error::UnexpectedValue),
{
    lemma_unending_arc(data, arc);
    lemma_arcs_split(data, pos + 1, arc, pos + length);
}

} // verus!
