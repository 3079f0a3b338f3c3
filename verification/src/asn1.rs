//! Tag-length-value decoding of the BER subset that SNMP traps use.

pub use crate::reader::ASN1Reader;
use crate::wire::{
    after, be_value, group_value, ip_value, lemma_base128_advances, lemma_value_advances,
    saturated, spec_decode_value, spec_read_arcs, spec_read_base128_from, spec_read_base128int,
    spec_read_length, spec_read_oid, spec_read_sequence, spec_read_tag_value, tag_type,
    unsigned64_value, Value,
};
use bit_vec::BitVec;
use byteorder::{BigEndian, ByteOrder};
use vstd::prelude::*;
use vstd::utf8::{decode_utf8, valid_utf8};

verus! {

/// The bit vector of the `bit_vec` crate. Nothing here looks inside one: a
/// value is carried as it is.
#[verifier::external_type_specification]
#[verifier::external_body]
#[verifier::reject_recursive_types(B)]
pub struct ExBitVec<B>(BitVec<B>);

/// Why decoding stopped.
#[derive(Debug, Clone, Copy, PartialEq, Eq, Structural)]
pub enum Error {
    /// The buffer ended inside an item.
    IoFailure,
    /// A length or a content that does not fit: a declared length beyond the
    /// buffer, an address of a length that no address has, an arc of an
    /// object identifier that does not end.
    UnexpectedValue,
    /// An unknown tag, a tag that has no decoding, text that is not UTF-8,
    /// or a value of another variant than the one asked for.
    WrongType,
}

/// What [`Error::description`] says of each error.
pub open spec fn error_description(e: Error) -> Seq<char> {
    match e {
        Error::IoFailure => "failed to fill whole buffer"@,
        Error::UnexpectedValue => "unexpected value"@,
        Error::WrongType => "wrong type!"@,
    }
}

/// What [`Error::message`] says of each error.
pub open spec fn error_message(e: Error) -> Seq<char> {
    match e {
        Error::IoFailure => "failed to fill whole buffer"@,
        Error::UnexpectedValue => "UnexpectedValue"@,
        Error::WrongType => "WrongType"@,
    }
}

impl Error {
    /// The error in a few words.
    pub fn description(&self) -> (text: String)
        ensures
            text@ == error_description(*self),
    {
        match self {
            Error::IoFailure => "failed to fill whole buffer".to_owned(),
            Error::UnexpectedValue => "unexpected value".to_owned(),
            Error::WrongType => "wrong type!".to_owned(),
        }
    }

    /// The error as it is shown to a reader of the log: the name of the
    /// variant, or, for a read that failed, what went wrong with it.
    pub fn message(&self) -> (text: String)
        ensures
            text@ == error_message(*self),
    {
        match self {
            Error::IoFailure => "failed to fill whole buffer".to_owned(),
            Error::UnexpectedValue => "UnexpectedValue".to_owned(),
            Error::WrongType => "WrongType".to_owned(),
        }
    }
}

pub type ASN1Result<T> = Result<T, Error>;

pub type ObjectIdentifier = Vec<u32>;

pub type Sequence = Vec<ASN1Value>;

/// The types that a tag octet can name.
#[derive(Debug, Clone, Copy, PartialEq, Eq, Structural)]
pub enum ASN1Type {
    EndOfContents,
    Boolean,
    Integer,
    BitString,
    OctetString,
    Null,
    ObjectIdentifier,
    ObjectDescription,
    Sequence,
    IPAddress,
    Counter32,
    Gauge32,
    TimeTicks,
    Opaque,
    NsapAddress,
    Counter64,
    Uinteger32,
    NoSuchObject,
    NoSuchInstance,
    EndOfMibView,
    GetRequest,
    GetNextRequest,
    GetResponse,
    SetRequest,
    Trap,
    GetBulkRequest,
    InformRequest,
    SnmpV2Trap,
    Report,
}

/// A network address as plain numbers: the four octets of an IPv4 address,
/// or the eight 16-bit groups of an IPv6 address.
#[derive(Debug, Clone, Copy, PartialEq, Eq)]
pub enum IpAddr {
    V4([u8; 4]),
    V6([u16; 8]),
}

/// A decoded value. It owns all that it holds.
#[derive(Debug, PartialEq)]
pub enum ASN1Value {
    EndOfContents,
    Sequence(Sequence),
    Boolean(bool),
    Integer(i64),
    BitString(BitVec),
    OctetString(String),
    Null,
    ObjectIdentifier(ObjectIdentifier),
    ObjectDescription(String),
    IPAddress(IpAddr),
    Counter32(u32),
    Gauge32(u32),
    TimeTicks(u32),
    Opaque(Vec<u8>),
    NsapAddress(Vec<u8>),
    Counter64(u64),
    Uinteger32(u32),
    NoSuchObject,
    NoSuchInstance,
    EndOfMibView,
    /// The body of a trap: a sequence under a tag of its own.
    Trap(Sequence),
}

/// The views of the values in `items`, in order.
pub open spec fn views(items: Seq<ASN1Value>) -> Seq<Value>
    decreases items,
{
    Seq::new(
        items.len(),
        |i: int|
            if 0 <= i < items.len() {
                items[i]@
            } else {
                Value::Null
            },
    )
}

impl View for ASN1Value {
    type V = Value;

    open spec fn view(&self) -> Value
        decreases self,
    {
        match self {
            ASN1Value::EndOfContents => Value::EndOfContents,
            ASN1Value::Sequence(items) => Value::Sequence(views(items@)),
            ASN1Value::Boolean(b) => Value::Boolean(*b),
            ASN1Value::Integer(i) => Value::Integer(*i),
            ASN1Value::BitString(bits) => Value::BitString(*bits),
            ASN1Value::OctetString(text) => Value::OctetString(text@),
            ASN1Value::Null => Value::Null,
            ASN1Value::ObjectIdentifier(arcs) => Value::ObjectIdentifier(arcs@),
            ASN1Value::ObjectDescription(text) => Value::ObjectDescription(text@),
            ASN1Value::IPAddress(address) => Value::IPAddress(*address),
            ASN1Value::Counter32(n) => Value::Counter32(*n),
            ASN1Value::Gauge32(n) => Value::Gauge32(*n),
            ASN1Value::TimeTicks(n) => Value::TimeTicks(*n),
            ASN1Value::Opaque(octets) => Value::Opaque(octets@),
            ASN1Value::NsapAddress(octets) => Value::NsapAddress(octets@),
            ASN1Value::Counter64(n) => Value::Counter64(*n),
            ASN1Value::Uinteger32(n) => Value::Uinteger32(*n),
            ASN1Value::NoSuchObject => Value::NoSuchObject,
            ASN1Value::NoSuchInstance => Value::NoSuchInstance,
            ASN1Value::EndOfMibView => Value::EndOfMibView,
            ASN1Value::Trap(items) => Value::Trap(views(items@)),
        }
    }
}

/// `Clone::clone` of the `bit_vec` crate's vector: a vector of the same
/// bits.
#[verifier::external_body]
fn clone_bits(bits: &BitVec) -> (copy: BitVec)
    ensures
        copy == *bits,
{
    bits.clone()
}

impl Clone for ASN1Value {
    /// A copy of the whole tree: the same value, item by item.
    fn clone(&self) -> (copy: Self)
        ensures
            copy@ == self@,
        decreases self,
    {
        match self {
            ASN1Value::EndOfContents => ASN1Value::EndOfContents,
            ASN1Value::Sequence(items) => {
                proof {
                    assert(decreases_to!(*self => self->Sequence_0));
                }
                ASN1Value::Sequence(clone_items(items))
            },
            ASN1Value::Boolean(b) => ASN1Value::Boolean(*b),
            ASN1Value::Integer(i) => ASN1Value::Integer(*i),
            ASN1Value::BitString(bits) => ASN1Value::BitString(clone_bits(bits)),
            ASN1Value::OctetString(text) => ASN1Value::OctetString(text.clone()),
            ASN1Value::Null => ASN1Value::Null,
            ASN1Value::ObjectIdentifier(arcs) => ASN1Value::ObjectIdentifier(arcs.clone()),
            ASN1Value::ObjectDescription(text) => ASN1Value::ObjectDescription(text.clone()),
            ASN1Value::IPAddress(address) => ASN1Value::IPAddress(*address),
            ASN1Value::Counter32(n) => ASN1Value::Counter32(*n),
            ASN1Value::Gauge32(n) => ASN1Value::Gauge32(*n),
            ASN1Value::TimeTicks(n) => ASN1Value::TimeTicks(*n),
            ASN1Value::Opaque(octets) => ASN1Value::Opaque(octets.clone()),
            ASN1Value::NsapAddress(octets) => ASN1Value::NsapAddress(octets.clone()),
            ASN1Value::Counter64(n) => ASN1Value::Counter64(*n),
            ASN1Value::Uinteger32(n) => ASN1Value::Uinteger32(*n),
            ASN1Value::NoSuchObject => ASN1Value::NoSuchObject,
            ASN1Value::NoSuchInstance => ASN1Value::NoSuchInstance,
            ASN1Value::EndOfMibView => ASN1Value::EndOfMibView,
            ASN1Value::Trap(items) => {
                proof {
                    assert(decreases_to!(*self => self->Trap_0));
                }
                ASN1Value::Trap(clone_items(items))
            },
        }
    }
}

/// Copies of the values in `items`, in order.
fn clone_items(items: &Vec<ASN1Value>) -> (copy: Vec<ASN1Value>)
    ensures
        views(copy@) == views(items@),
    decreases items,
{
    let mut copy: Vec<ASN1Value> = Vec::new();
    let mut i: usize = 0;
    while i < items.len()
        invariant
            i <= items.len(),
            copy@.len() == i,
            forall|k: int| 0 <= k < i ==> copy@[k]@ == items@[k]@,
        decreases items.len() - i,
    {
        proof {
            assert(decreases_to!(*items => items[i as int]));
        }
        copy.push(items[i].clone());
        i += 1;
    }
    assert(views(copy@) =~= views(items@));
    copy
}

impl ASN1Value {
    /// The arcs of an object identifier; any other value is a `WrongType`.
    pub fn as_oid(self) -> (arcs: ASN1Result<ObjectIdentifier>)
        ensures
            match arcs {
                Ok(a) => self@.as_oid() == Ok::<Seq<u32>, Error>(a@),
                Err(e) => self@.as_oid() == Err::<Seq<u32>, Error>(e),
            },
    {
        match self {
            ASN1Value::ObjectIdentifier(a) => Ok(a),
            _ => Err(Error::WrongType),
        }
    }

    /// The address of an `IPAddress`; any other value is a `WrongType`.
    pub fn as_ipaddr(self) -> (address: ASN1Result<IpAddr>)
        ensures
            address == self@.as_ipaddr(),
    {
        match self {
            ASN1Value::IPAddress(addr) => Ok(addr),
            _ => Err(Error::WrongType),
        }
    }

    /// The truth value of a `Boolean`; any other value is a `WrongType`.
    pub fn as_bool(self) -> (truth: ASN1Result<bool>)
        ensures
            truth == self@.as_bool(),
    {
        match self {
            ASN1Value::Boolean(b) => Ok(b),
            _ => Err(Error::WrongType),
        }
    }

    /// The number of an `Integer`; any other value is a `WrongType`.
    pub fn as_i64(self) -> (number: ASN1Result<i64>)
        ensures
            number == self@.as_i64(),
    {
        match self {
            ASN1Value::Integer(i) => Ok(i),
            _ => Err(Error::WrongType),
        }
    }

    /// An unsigned 32-bit number: the low 32 bits of an `Integer`, or the
    /// count of a `TimeTicks`. Any other value is a `WrongType`.
    pub fn as_u32(self) -> (number: ASN1Result<u32>)
        ensures
            number == self@.as_u32(),
    {
        match self {
            ASN1Value::Integer(x) => {
                assert(x as u32 == (x as int % 0x1_0000_0000) as u32) by (bit_vector);
                Ok(
                    #[verifier::truncate]
                    (x as u32),
                )
            },
            ASN1Value::TimeTicks(x) => Ok(x),
            _ => Err(Error::WrongType),
        }
    }

    /// The text of an `OctetString`; any other value is a `WrongType`.
    pub fn as_string(self) -> (text: ASN1Result<String>)
        ensures
            match text {
                Ok(s) => self@.as_string() == Ok::<Seq<char>, Error>(s@),
                Err(e) => self@.as_string() == Err::<Seq<char>, Error>(e),
            },
    {
        match self {
            ASN1Value::OctetString(s) => Ok(s),
            _ => Err(Error::WrongType),
        }
    }

    /// The items of a `Sequence` or of a `Trap`; any other value is a
    /// `WrongType`.
    pub fn as_sequence(self) -> (items: ASN1Result<Sequence>)
        ensures
            match items {
                Ok(v) => self@.as_sequence() == Ok::<Seq<Value>, Error>(views(v@)),
                Err(e) => self@.as_sequence() == Err::<Seq<Value>, Error>(e),
            },
    {
        match self {
            ASN1Value::Sequence(v) => Ok(v),
            ASN1Value::Trap(v) => Ok(v),
            _ => Err(Error::WrongType),
        }
    }
}

/// Whether two identifiers agree on every position that both of them have.
///
/// The comparison runs over the common prefix only: an identifier and any
/// extension of it compare as equal, and so does the empty identifier with
/// every other.
pub open spec fn spec_oid_equals(a: Seq<u32>, b: Seq<u32>) -> bool {
    forall|i: int| 0 <= i < a.len() && i < b.len() ==> a[i] == b[i]
}

/// Compares two object identifiers over their common prefix.
pub fn oid_equals(a: &[u32], b: &[u32]) -> (same: bool)
    ensures
        same == spec_oid_equals(a@, b@),
{
    let n: usize = if a.len() < b.len() {
        a.len()
    } else {
        b.len()
    };
    let mut i: usize = 0;
    while i < n
        invariant
            i <= n,
            n <= a@.len(),
            n <= b@.len(),
            n == a@.len() || n == b@.len(),
            forall|k: int| 0 <= k < i ==> a@[k] == b@[k],
        decreases n - i,
    {
        if a[i] != b[i] {
            return false;
        }
        i += 1;
    }
    true
}

/// `String::from_utf8` of std: the text that `octets` encode, where they
/// are well-formed UTF-8, and nothing where they are not.
#[verifier::external_body]
fn text_from_utf8(octets: Vec<u8>) -> (text: Option<String>)
    ensures
        text is Some <==> valid_utf8(octets@),
        text matches Some(s) ==> s@ == decode_utf8(octets@),
{
    String::from_utf8(octets).ok()
}

/// `BigEndian::read_u16` of the `byteorder` crate, on a buffer of exactly
/// two octets: the 16-bit number with `hi` as its upper and `lo` as its
/// lower half.
#[verifier::external_body]
fn be_group(hi: u8, lo: u8) -> (group: u16)
    ensures
        group == group_value(hi, lo),
{
    BigEndian::read_u16(&[hi, lo])
}

impl ASN1Type {
    /// The type that the tag octet `b` names; an octet that names none is a
    /// `WrongType`.
    pub fn from(b: u8) -> (kind: ASN1Result<ASN1Type>)
        ensures
            kind == match tag_type(b) {
                Some(t) => Ok::<ASN1Type, Error>(t),
                None => Err::<ASN1Type, Error>(Error::WrongType),
            },
    {
        Ok(
            match b {
                0x00 => ASN1Type::EndOfContents,
                0x01 => ASN1Type::Boolean,
                0x02 => ASN1Type::Integer,
                0x03 => ASN1Type::BitString,
                0x04 => ASN1Type::OctetString,
                0x05 => ASN1Type::Null,
                0x06 => ASN1Type::ObjectIdentifier,
                0x07 => ASN1Type::ObjectDescription,
                0x30 => ASN1Type::Sequence,
                0x40 => ASN1Type::IPAddress,
                0x41 => ASN1Type::Counter32,
                0x42 => ASN1Type::Gauge32,
                0x43 => ASN1Type::TimeTicks,
                0x44 => ASN1Type::Opaque,
                0x45 => ASN1Type::NsapAddress,
                0x46 => ASN1Type::Counter64,
                0x47 => ASN1Type::Uinteger32,
                0x80 => ASN1Type::NoSuchObject,
                0x81 => ASN1Type::NoSuchInstance,
                0x82 => ASN1Type::EndOfMibView,
                0xa0 => ASN1Type::GetRequest,
                0xa1 => ASN1Type::GetNextRequest,
                0xa2 => ASN1Type::GetResponse,
                0xa3 => ASN1Type::SetRequest,
                0xa4 => ASN1Type::Trap,
                0xa5 => ASN1Type::GetBulkRequest,
                0xa6 => ASN1Type::InformRequest,
                0xa7 => ASN1Type::SnmpV2Trap,
                0xa8 => ASN1Type::Report,
                _ => return Err(Error::WrongType),
            },
        )
    }
}

fn read_byte(reader: &mut ASN1Reader) -> (octet: ASN1Result<u8>)
    ensures
        final(reader).bytes() == old(reader).bytes(),
        match octet {
            Ok(b) => {
                &&& 0 <= old(reader).offset() < old(reader).bytes().len()
                &&& b == old(reader).bytes()[old(reader).offset()]
                &&& final(reader).offset() == old(reader).offset() + 1
            },
            Err(e) => {
                &&& e == Error::IoFailure
                &&& old(reader).offset() >= old(reader).bytes().len()
                &&& final(reader).offset() == old(reader).offset()
            },
        },
{
    match reader.read_u8() {
        Some(b) => Ok(b),
        None => Err(Error::IoFailure),
    }
}

#[verifier::loop_isolation(false)]
fn read_length(reader: &mut ASN1Reader) -> (length: ASN1Result<usize>)
    ensures
        final(reader).bytes() == old(reader).bytes(),
        match length {
            Ok(n) => {
                &&& spec_read_length(old(reader).bytes(), old(reader).offset()) matches Ok(
                    (l, next),
                )
                &&& n == saturated(l)
                &&& final(reader).offset() == next
            },
            Err(e) => spec_read_length(old(reader).bytes(), old(reader).offset()) == Err::<
                (nat, int),
                Error,
            >(e),
        },
{
    let first: u8 = read_byte(reader)?;
    if first < 127 {
        Ok(first as usize)
    } else {
        let count: u8 = first & 127;
        assert(first & 127 == first % 128) by (bit_vector);
        let start: usize = reader.position();
        let ghost data = reader.bytes();
        let mut length: usize = 0;
        let mut i: u8 = 0;
        while i < count
            invariant
                i <= count,
                data == old(reader).bytes(),
                reader.bytes() == data,
                reader.offset() == start + i,
                start + i <= data.len(),
                length == saturated(be_value(data.subrange(start as int, start + i))),
            decreases count - i,
        {
            let octet: u8 = read_byte(reader)?;
            proof {
                let shorter = data.subrange(start as int, start + i);
                let longer = data.subrange(start as int, start + i + 1);
                assert(longer.drop_last() =~= shorter);
                assert(longer.last() == octet);
            }
            length = if length > (usize::MAX - octet as usize) / 256 {
                usize::MAX
            } else {
                length * 256 + octet as usize
            };
            i += 1;
        }
        Ok(length)
    }
}

fn read_tag_value(reader: &mut ASN1Reader) -> (header: ASN1Result<(ASN1Type, usize)>)
    ensures
        final(reader).bytes() == old(reader).bytes(),
        match header {
            Ok((kind, n)) => {
                &&& spec_read_tag_value(old(reader).bytes(), old(reader).offset()) matches Ok(
                    ((k, l), next),
                )
                &&& kind == k
                &&& n == saturated(l)
                &&& final(reader).offset() == next
            },
            Err(e) => spec_read_tag_value(old(reader).bytes(), old(reader).offset()) == Err::<
                ((ASN1Type, nat), int),
                Error,
            >(e),
        },
{
    let tag: u8 = read_byte(reader)?;
    let kind: ASN1Type = ASN1Type::from(tag)?;
    let length: usize = read_length(reader)?;
    Ok((kind, length))
}

/// Reads `len` octets as one unsigned number, of which the low 64 bits are
/// kept. A buffer that ends before `len` octets are read is an `IoFailure`.
#[verifier::loop_isolation(false)]
fn read_integer(reader: &mut ASN1Reader, len: usize) -> (value: ASN1Result<u64>)
    ensures
        final(reader).bytes() == old(reader).bytes(),
        match value {
            Ok(v) => {
                &&& len <= old(reader).bytes().len() - old(reader).offset()
                &&& final(reader).offset() == old(reader).offset() + len
                &&& v == unsigned64_value(
                    old(reader).bytes().subrange(old(reader).offset(), old(reader).offset() + len),
                )
            },
            Err(e) => {
                &&& e == Error::IoFailure
                &&& len > old(reader).bytes().len() - old(reader).offset()
            },
        },
{
    let start: usize = reader.position();
    let ghost data = reader.bytes();
    let mut value: u64 = 0;
    let mut i: usize = 0;
    while i < len
        invariant
            i <= len,
            reader.bytes() == data,
            reader.offset() == start + i,
            start + i <= data.len(),
            value == unsigned64_value(data.subrange(start as int, start + i)),
        decreases len - i,
    {
        let octet: u8 = read_byte(reader)?;
        proof {
            let shorter = data.subrange(start as int, start + i);
            let longer = data.subrange(start as int, start + i + 1);
            assert(longer.drop_last() =~= shorter);
            assert(longer.last() == octet);
        }
        value = (value % 0x100_0000_0000_0000) * 256 + octet as u64;
        i += 1;
    }
    Ok(value)
}

/// The 64 bits of `value` read as a signed number.
fn as_signed(value: u64) -> (signed: i64)
    ensures
        signed == if value < 0x8000_0000_0000_0000 {
            value as int
        } else {
            value - 0x1_0000_0000_0000_0000
        },
{
    if value < 0x8000_0000_0000_0000 {
        value as i64
    } else {
        (value - 0x8000_0000_0000_0000) as i64 + i64::MIN
    }
}

/// The low 32 bits of `value`.
fn low_32(value: u64) -> (low: u32)
    ensures
        low == value % 0x1_0000_0000,
{
    (value % 0x1_0000_0000) as u32
}

fn read_base128int(reader: &mut ASN1Reader) -> (arc: ASN1Result<u32>)
    ensures
        final(reader).bytes() == old(reader).bytes(),
        match arc {
            Ok(a) => spec_read_base128int(old(reader).bytes(), old(reader).offset()) == Ok::<
                (u32, int),
                Error,
            >((a, final(reader).offset())),
            Err(e) => spec_read_base128int(old(reader).bytes(), old(reader).offset()) == Err::<
                (u32, int),
                Error,
            >(e),
        },
{
    let ghost data = reader.bytes();
    let ghost start = reader.offset();
    let mut acc: u32 = 0;
    let mut taken: u8 = 0;
    loop
        invariant
            taken <= 5,
            data == old(reader).bytes(),
            start == old(reader).offset(),
            reader.bytes() == data,
            spec_read_base128int(data, start) == spec_read_base128_from(
                data,
                reader.offset(),
                acc,
                taken as nat,
            ),
        decreases 5 - taken,
    {
        if taken >= 5 {
            return Err(Error::UnexpectedValue);
        }
        let octet: u8 = read_byte(reader)?;
        let low: u8 = octet & 0x7f;
        assert(octet & 0x7f == octet % 128) by (bit_vector);
        acc = (acc % 0x200_0000) * 128 + low as u32;
        taken += 1;
        if octet < 128 {
            return Ok(acc);
        }
    }
}

#[verifier::loop_isolation(false)]
fn read_oid(reader: &mut ASN1Reader, len: usize) -> (oid: ASN1Result<ObjectIdentifier>)
    requires
        len <= old(reader).bytes().len() - old(reader).offset(),
    ensures
        final(reader).bytes() == old(reader).bytes(),
        match oid {
            Ok(arcs) => spec_read_oid(old(reader).bytes(), old(reader).offset(), len as nat)
                == Ok::<(Seq<u32>, int), Error>((arcs@, final(reader).offset())),
            Err(e) => spec_read_oid(old(reader).bytes(), old(reader).offset(), len as nat)
                == Err::<(Seq<u32>, int), Error>(e),
        },
{
    let ghost data = reader.bytes();
    let start: usize = reader.position();
    let end: usize = start + len;
    let first: u8 = read_byte(reader)?;
    let mut oid: Vec<u32> = Vec::new();
    oid.push((first / 40) as u32);
    oid.push((first % 40) as u32);
    let ghost lead = oid@;
    let mut arcs: Ghost<Seq<u32>> = Ghost(Seq::empty());
    assert(after(arcs@, spec_read_arcs(data, start + 1, end as int)) == spec_read_arcs(
        data,
        start + 1,
        end as int,
    )) by {
        match spec_read_arcs(data, start + 1, end as int) {
            Ok((tail, last)) => {
                assert(arcs@ + tail =~= tail);
            },
            Err(e) => {},
        }
    }
    while reader.position() < end
        invariant
            reader.bytes() == data,
            oid@ == lead + arcs@,
            spec_read_arcs(data, start + 1, end as int) == after(
                arcs@,
                spec_read_arcs(data, reader.offset(), end as int),
            ),
        decreases data.len() - reader.offset(),
    {
        let ghost at = reader.offset();
        let arc: u32 = read_base128int(reader)?;
        proof {
            match spec_read_arcs(data, reader.offset(), end as int) {
                Ok((tail, last)) => {
                    assert(arcs@ + (seq![arc] + tail) =~= arcs@.push(arc) + tail);
                },
                Err(e) => {},
            }
            arcs@ = arcs@.push(arc);
            lemma_base128_advances(data, at, 0, 0);
        }
        oid.push(arc);
        assert(oid@ =~= lead + arcs@);
    }
    proof {
        assert(arcs@ + Seq::<u32>::empty() =~= arcs@);
        assert(seq![(first / 40) as u32, (first % 40) as u32] =~= lead);
    }
    Ok(oid)
}

fn read_ip_address(reader: &mut ASN1Reader, size: usize) -> (address: ASN1Result<IpAddr>)
    requires
        0 <= old(reader).offset(),
        size <= old(reader).bytes().len() - old(reader).offset(),
    ensures
        final(reader).bytes() == old(reader).bytes(),
        match address {
            Ok(a) => {
                &&& ip_value(
                    old(reader).bytes().subrange(old(reader).offset(), old(reader).offset() + size),
                ) == Some(a)
                &&& final(reader).offset() == old(reader).offset() + size
            },
            Err(e) => {
                &&& e == Error::UnexpectedValue
                &&& ip_value(
                    old(reader).bytes().subrange(old(reader).offset(), old(reader).offset() + size),
                ) is None
                &&& final(reader).offset() == old(reader).offset()
            },
        },
{
    if size == 4 {
        match reader.read_exact(4) {
            Some(o) => {
                assert(o@.len() == 4);
                Ok(IpAddr::V4([o[0], o[1], o[2], o[3]]))
            },
            None => Err(Error::IoFailure),
        }
    } else if size == 16 {
        match reader.read_exact(16) {
            Some(o) => {
                assert(o@.len() == 16);
                Ok(
                    IpAddr::V6(
                        [
                            be_group(o[0], o[1]),
                            be_group(o[2], o[3]),
                            be_group(o[4], o[5]),
                            be_group(o[6], o[7]),
                            be_group(o[8], o[9]),
                            be_group(o[10], o[11]),
                            be_group(o[12], o[13]),
                            be_group(o[14], o[15]),
                        ],
                    ),
                )
            },
            None => Err(Error::IoFailure),
        }
    } else {
        Err(Error::UnexpectedValue)
    }
}

#[verifier::loop_isolation(false)]
fn read_sequence(c: &mut ASN1Reader, len: usize) -> (items: ASN1Result<Sequence>)
    requires
        len <= old(c).bytes().len() - old(c).offset(),
    ensures
        final(c).bytes() == old(c).bytes(),
        match items {
            Ok(v) => spec_read_sequence(
                old(c).bytes(),
                old(c).offset(),
                old(c).offset() + len,
            ) == Ok::<(Seq<Value>, int), Error>((views(v@), final(c).offset())),
            Err(e) => spec_read_sequence(
                old(c).bytes(),
                old(c).offset(),
                old(c).offset() + len,
            ) == Err::<(Seq<Value>, int), Error>(e),
        },
    decreases old(c).bytes().len() - old(c).offset(), 1int,
{
    let ghost data = c.bytes();
    let start: usize = c.position();
    let end: usize = start + len;
    let mut out: Vec<ASN1Value> = Vec::new();
    assert(after(views(out@), spec_read_sequence(data, start as int, end as int))
        == spec_read_sequence(data, start as int, end as int)) by {
        match spec_read_sequence(data, start as int, end as int) {
            Ok((tail, last)) => {
                assert(views(out@) + tail =~= tail);
            },
            Err(e) => {},
        }
    }
    while c.position() < end
        invariant
            c.bytes() == data,
            start <= c.offset(),
            spec_read_sequence(data, start as int, end as int) == after(
                views(out@),
                spec_read_sequence(data, c.offset(), end as int),
            ),
        decreases data.len() - c.offset(),
    {
        let ghost at = c.offset();
        let ghost before = views(out@);
        proof {
            lemma_value_advances(data, at);
        }
        let val: ASN1Value = decode_value(c)?;
        proof {
            match spec_read_sequence(data, c.offset(), end as int) {
                Ok((tail, last)) => {
                    assert(before + (seq![val@] + tail) =~= before.push(val@) + tail);
                },
                Err(e) => {},
            }
        }
        out.push(val);
        assert(views(out@) =~= before.push(val@));
    }
    proof {
        assert(views(out@) + Seq::<Value>::empty() =~= views(out@));
    }
    Ok(out)
}

/// Decodes the value at the reader's position and leaves the reader behind
/// it.
///
/// The result is what [`spec_decode_value`] gives for the reader's buffer
/// and position: the same value with the reader at the index behind it, or
/// the same error. The buffer itself is never changed, and no octet outside
/// it is read.
pub fn decode_value(c: &mut ASN1Reader) -> (value: ASN1Result<ASN1Value>)
    ensures
        final(c).bytes() == old(c).bytes(),
        match value {
            Ok(v) => spec_decode_value(old(c).bytes(), old(c).offset()) == Ok::<
                (Value, int),
                Error,
            >((v@, final(c).offset())),
            Err(e) => spec_decode_value(old(c).bytes(), old(c).offset()) == Err::<
                (Value, int),
                Error,
            >(e),
        },
    decreases old(c).bytes().len() - old(c).offset(), 0int,
{
    let ghost data = c.bytes();
    let (asn_type, length) = read_tag_value(c)?;
    if length > c.remaining() {
        return Err(Error::UnexpectedValue);
    }
    match asn_type {
        ASN1Type::Sequence => {
            let items = read_sequence(c, length)?;
            Ok(ASN1Value::Sequence(items))
        },
        ASN1Type::Integer => {
            let val = read_integer(c, length)?;
            Ok(ASN1Value::Integer(as_signed(val)))
        },
        ASN1Type::OctetString => {
            match c.read_exact(length) {
                None => Err(Error::IoFailure),
                Some(s) => match text_from_utf8(s) {
                    Some(text) => Ok(ASN1Value::OctetString(text)),
                    None => Err(Error::WrongType),
                },
            }
        },
        ASN1Type::Null => Ok(ASN1Value::Null),
        ASN1Type::ObjectIdentifier => {
            let arcs = read_oid(c, length)?;
            Ok(ASN1Value::ObjectIdentifier(arcs))
        },
        ASN1Type::IPAddress => {
            let address = read_ip_address(c, length)?;
            Ok(ASN1Value::IPAddress(address))
        },
        ASN1Type::Counter32 => {
            let val = read_integer(c, length)?;
            Ok(ASN1Value::Counter32(low_32(val)))
        },
        ASN1Type::Gauge32 => {
            let val = read_integer(c, length)?;
            Ok(ASN1Value::Gauge32(low_32(val)))
        },
        ASN1Type::TimeTicks => {
            let val = read_integer(c, length)?;
            Ok(ASN1Value::TimeTicks(low_32(val)))
        },
        ASN1Type::Counter64 => {
            let val = read_integer(c, length)?;
            Ok(ASN1Value::Counter64(val))
        },
        ASN1Type::Opaque => {
            match c.read_exact(length) {
                None => Err(Error::IoFailure),
                Some(buf) => Ok(ASN1Value::Opaque(buf)),
            }
        },
        ASN1Type::NsapAddress => {
            match c.read_exact(length) {
                None => Err(Error::IoFailure),
                Some(buf) => Ok(ASN1Value::NsapAddress(buf)),
            }
        },
        ASN1Type::NoSuchObject => Ok(ASN1Value::NoSuchObject),
        ASN1Type::NoSuchInstance => Ok(ASN1Value::NoSuchInstance),
        ASN1Type::EndOfMibView => Ok(ASN1Value::EndOfMibView),
        ASN1Type::EndOfContents => Ok(ASN1Value::EndOfContents),
        ASN1Type::Trap => {
            let items = read_sequence(c, length)?;
            Ok(ASN1Value::Trap(items))
        },
        _ => Err(Error::WrongType),
    }
}

} // verus!
