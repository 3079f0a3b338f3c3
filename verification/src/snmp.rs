//! SNMP version 1 messages that carry a trap.

use crate::asn1;
use crate::asn1::{
    decode_value, error_description, error_message, views, ASN1Value, IpAddr,
};
use crate::protocol::{
    binding, bindings, generic_trap, invalid_length_text, lemma_enterprise_has_two_arcs,
    spec_decode_trap, spec_message, spec_parse_packet, spec_pdu, unknown_category_text,
    PacketView, PduView, SnmpErrorView, TrapView, V1PacketView,
};
use crate::reader::ASN1Reader;
use crate::wire::Value;
use vstd::prelude::*;

verus! {

/// Why a datagram is no message that this library accepts.
#[derive(Debug, PartialEq)]
pub enum SnmpError {
    /// The octets do not decode, or a value is of another type than its
    /// place in the message asks for.
    ASN1Error(asn1::Error),
    /// The message has fewer items than a message must have.
    WrongType,
    /// The message is of another version than version 1, which the number 0
    /// stands for.
    UnsupportedVersion,
    /// The message carries a protocol data unit other than a trap.
    UnsupportedPdu,
    /// Another failure, described in words.
    Generic(String),
}

impl View for SnmpError {
    type V = SnmpErrorView;

    open spec fn view(&self) -> SnmpErrorView {
        match self {
            SnmpError::ASN1Error(e) => SnmpErrorView::ASN1Error(*e),
            SnmpError::WrongType => SnmpErrorView::WrongType,
            SnmpError::UnsupportedVersion => SnmpErrorView::UnsupportedVersion,
            SnmpError::UnsupportedPdu => SnmpErrorView::UnsupportedPdu,
            SnmpError::Generic(text) => SnmpErrorView::Generic(text@),
        }
    }
}

/// What [`SnmpError::description`] says of each error.
pub open spec fn snmp_error_description(e: SnmpErrorView) -> Seq<char> {
    match e {
        SnmpErrorView::ASN1Error(inner) => error_description(inner),
        SnmpErrorView::WrongType => "wrong type"@,
        SnmpErrorView::UnsupportedVersion => "unsupported version"@,
        SnmpErrorView::UnsupportedPdu => "invalid type for pdu"@,
        SnmpErrorView::Generic(text) => text,
    }
}

/// What [`SnmpError::message`] says of each error.
pub open spec fn snmp_error_message(e: SnmpErrorView) -> Seq<char> {
    match e {
        SnmpErrorView::ASN1Error(inner) => error_message(inner),
        SnmpErrorView::WrongType => "wrong type"@,
        SnmpErrorView::UnsupportedVersion => "unsupported version"@,
        SnmpErrorView::UnsupportedPdu => "invalid type for pdu"@,
        SnmpErrorView::Generic(text) => text,
    }
}

impl SnmpError {
    /// The error in a few words: those of the decoding error underneath, or
    /// the error's own.
    pub fn description(&self) -> (text: String)
        ensures
            text@ == snmp_error_description(self@),
    {
        match self {
            SnmpError::ASN1Error(e) => e.description(),
            SnmpError::WrongType => "wrong type".to_owned(),
            SnmpError::UnsupportedVersion => "unsupported version".to_owned(),
            SnmpError::UnsupportedPdu => "invalid type for pdu".to_owned(),
            SnmpError::Generic(s) => s.clone(),
        }
    }

    /// The error as it is shown to a reader of the log.
    pub fn message(&self) -> (text: String)
        ensures
            text@ == snmp_error_message(self@),
    {
        match self {
            SnmpError::ASN1Error(e) => e.message(),
            SnmpError::WrongType => "wrong type".to_owned(),
            SnmpError::UnsupportedVersion => "unsupported version".to_owned(),
            SnmpError::UnsupportedPdu => "invalid type for pdu".to_owned(),
            SnmpError::Generic(s) => s.clone(),
        }
    }
}

impl From<asn1::Error> for SnmpError {
    /// A decoding error as the error of a message.
    fn from(e: asn1::Error) -> (error: SnmpError)
        ensures
            error == SnmpError::ASN1Error(e),
    {
        SnmpError::ASN1Error(e)
    }
}

impl vstd::std_specs::convert::FromSpecImpl<asn1::Error> for SnmpError {
    open spec fn obeys_from_spec() -> bool {
        true
    }

    open spec fn from_spec(e: asn1::Error) -> SnmpError {
        SnmpError::ASN1Error(e)
    }
}

impl<'a> From<&'a str> for SnmpError {
    /// A failure described in words.
    fn from(e: &'a str) -> (error: SnmpError)
        ensures
            error@ == SnmpErrorView::Generic(e@),
    {
        SnmpError::Generic(e.to_owned())
    }
}

/// No spec-level value can stand for the text that `from` allocates: what
/// `from` returns is stated on `from` itself, over the view.
impl<'a> vstd::std_specs::convert::FromSpecImpl<&'a str> for SnmpError {
    open spec fn obeys_from_spec() -> bool {
        false
    }

    open spec fn from_spec(e: &'a str) -> SnmpError {
        SnmpError::WrongType
    }
}

/// The seven categories of a version 1 trap.
#[derive(Debug, PartialEq, Eq, Clone, Copy, Structural)]
pub enum GenericTrap {
    ColdStart,
    WarmStart,
    LinkDown,
    LinkUp,
    AuthenticationFailure,
    EgpNeighborLoss,
    EnterpriseSpecific,
}

/// The error status of a response.
#[derive(Debug, PartialEq, Eq, Clone, Copy, Structural)]
pub enum ErrorStatus {
    NoError,
    TooBig,
    NoSuchName,
    BadValue,
    ReadOnly,
    GenErr,
}

/// A trap: who sent it, of which category it is, and the variables it
/// reports, each as a name and a value.
#[derive(Debug, PartialEq)]
pub struct Trap {
    pub enterprise_oid: asn1::ObjectIdentifier,
    pub agent_address: IpAddr,
    pub generic: GenericTrap,
    pub specific: u32,
    pub time_ticks: u32,
    pub variables: Vec<(ASN1Value, ASN1Value)>,
}

/// The views of the pairs in `pairs`, in order.
pub open spec fn pair_views(pairs: Seq<(ASN1Value, ASN1Value)>) -> Seq<(Value, Value)> {
    Seq::new(pairs.len(), |i: int| (pairs[i].0@, pairs[i].1@))
}

impl View for Trap {
    type V = TrapView;

    open spec fn view(&self) -> TrapView {
        TrapView {
            enterprise_oid: self.enterprise_oid@,
            agent_address: self.agent_address,
            generic: self.generic,
            specific: self.specific,
            time_ticks: self.time_ticks,
            variables: pair_views(self.variables@),
        }
    }
}

/// The protocol data units of version 1 that this library reads.
#[derive(Debug, PartialEq)]
pub enum SnmpV1PDU {
    Trap(Trap),
}

impl View for SnmpV1PDU {
    type V = PduView;

    open spec fn view(&self) -> PduView {
        match self {
            SnmpV1PDU::Trap(trap) => PduView::Trap(trap@),
        }
    }
}

/// A version 1 message: the community it was sent under, and what it
/// carries.
#[derive(Debug, PartialEq)]
pub struct SnmpV1Packet {
    pub community: String,
    pub pdu: SnmpV1PDU,
}

impl View for SnmpV1Packet {
    type V = V1PacketView;

    open spec fn view(&self) -> V1PacketView {
        V1PacketView { community: self.community@, pdu: self.pdu@ }
    }
}

/// A message, by version.
#[derive(Debug, PartialEq)]
pub enum SnmpPacket {
    V1(SnmpV1Packet),
}

impl View for SnmpPacket {
    type V = PacketView;

    open spec fn view(&self) -> PacketView {
        match self {
            SnmpPacket::V1(packet) => PacketView::V1(packet@),
        }
    }
}

impl Clone for Trap {
    /// A copy that is the same trap, binding by binding.
    fn clone(&self) -> (copy: Self)
        ensures
            copy@ == self@,
    {
        let mut variables: Vec<(ASN1Value, ASN1Value)> = Vec::new();
        let mut i: usize = 0;
        while i < self.variables.len()
            invariant
                i <= self.variables.len(),
                variables@.len() == i,
                forall|k: int|
                    0 <= k < i ==> variables@[k].0@ == self.variables@[k].0@ && variables@[k].1@
                        == self.variables@[k].1@,
            decreases self.variables.len() - i,
        {
            variables.push((self.variables[i].0.clone(), self.variables[i].1.clone()));
            i += 1;
        }
        assert(pair_views(variables@) =~= pair_views(self.variables@));
        Trap {
            enterprise_oid: self.enterprise_oid.clone(),
            agent_address: self.agent_address,
            generic: self.generic,
            specific: self.specific,
            time_ticks: self.time_ticks,
            variables: variables,
        }
    }
}

impl Clone for SnmpV1PDU {
    fn clone(&self) -> (copy: Self)
        ensures
            copy@ == self@,
    {
        match self {
            SnmpV1PDU::Trap(trap) => SnmpV1PDU::Trap(trap.clone()),
        }
    }
}

impl Clone for SnmpV1Packet {
    fn clone(&self) -> (copy: Self)
        ensures
            copy@ == self@,
    {
        SnmpV1Packet { community: self.community.clone(), pdu: self.pdu.clone() }
    }
}

impl Clone for SnmpPacket {
    fn clone(&self) -> (copy: Self)
        ensures
            copy@ == self@,
    {
        match self {
            SnmpPacket::V1(packet) => SnmpPacket::V1(packet.clone()),
        }
    }
}

impl GenericTrap {
    /// The category that the code `b` names. A code above 6 names none.
    pub fn new(b: u32) -> (category: Result<GenericTrap, SnmpError>)
        ensures
            match category {
                Ok(g) => generic_trap(b) == Some(g),
                Err(e) => generic_trap(b) is None && e@ == SnmpErrorView::Generic(
                    unknown_category_text(),
                ),
            },
    {
        Ok(
            match b {
                0 => GenericTrap::ColdStart,
                1 => GenericTrap::WarmStart,
                2 => GenericTrap::LinkDown,
                3 => GenericTrap::LinkUp,
                4 => GenericTrap::AuthenticationFailure,
                5 => GenericTrap::EgpNeighborLoss,
                6 => GenericTrap::EnterpriseSpecific,
                _ => return Err(SnmpError::Generic("idk".to_owned())),
            },
        )
    }
}

/// The pairs of the well-formed entries among `entries`.
fn read_bindings(entries: &Vec<ASN1Value>) -> (pairs: Vec<(ASN1Value, ASN1Value)>)
    ensures
        pair_views(pairs@) == bindings(views(entries@)),
{
    let mut pairs: Vec<(ASN1Value, ASN1Value)> = Vec::new();
    let mut i: usize = 0;
    assert(views(entries@).take(0) =~= Seq::<Value>::empty());
    assert(pair_views(pairs@) =~= Seq::<(Value, Value)>::empty());
    while i < entries.len()
        invariant
            i <= entries.len(),
            pair_views(pairs@) == bindings(views(entries@).take(i as int)),
        decreases entries.len() - i,
    {
        let ghost before = pair_views(pairs@);
        let ghost all = views(entries@);
        proof {
            assert(all.take(i + 1).drop_last() =~= all.take(i as int));
            assert(all.take(i + 1).last() == entries@[i as int]@);
        }
        match &entries[i] {
            ASN1Value::Sequence(items) => {
                assert(entries@[i as int]@.as_sequence() == Ok::<Seq<Value>, asn1::Error>(
                    views(items@),
                ));
                if items.len() >= 2 {
                    pairs.push((items[0].clone(), items[1].clone()));
                    assert(pair_views(pairs@) =~= before.push((items@[0]@, items@[1]@)));
                }
            },
            ASN1Value::Trap(items) => {
                assert(entries@[i as int]@.as_sequence() == Ok::<Seq<Value>, asn1::Error>(
                    views(items@),
                ));
                if items.len() >= 2 {
                    pairs.push((items[0].clone(), items[1].clone()));
                    assert(pair_views(pairs@) =~= before.push((items@[0]@, items@[1]@)));
                }
            },
            _ => {},
        }
        i += 1;
    }
    assert(views(entries@).take(entries@.len() as int) =~= views(entries@));
    pairs
}

/// Reads the fields of a trap body.
///
/// The result is what [`spec_decode_trap`] gives for the views of the
/// fields: the trap, or the error of the first field that does not fit.
pub fn decode_trap(v: &[ASN1Value]) -> (trap: Result<Trap, SnmpError>)
    ensures
        match trap {
            Ok(t) => spec_decode_trap(views(v@)) == Ok::<TrapView, SnmpErrorView>(t@),
            Err(e) => spec_decode_trap(views(v@)) == Err::<TrapView, SnmpErrorView>(e@),
        },
{
    if v.len() < 6 {
        return Err(SnmpError::Generic("invalid length".to_owned()));
    }
    let oid = match v[0].clone().as_oid() {
        Ok(oid) => oid,
        Err(e) => return Err(SnmpError::ASN1Error(e)),
    };
    let addr = match v[1].clone().as_ipaddr() {
        Ok(addr) => addr,
        Err(e) => return Err(SnmpError::ASN1Error(e)),
    };
    let code = match v[2].clone().as_u32() {
        Ok(code) => code,
        Err(e) => return Err(SnmpError::ASN1Error(e)),
    };
    let generic = GenericTrap::new(code)?;
    let specific = match v[3].clone().as_u32() {
        Ok(specific) => specific,
        Err(e) => return Err(SnmpError::ASN1Error(e)),
    };
    let time_ticks = match v[4].clone().as_u32() {
        Ok(time_ticks) => time_ticks,
        Err(e) => return Err(SnmpError::ASN1Error(e)),
    };
    let variables = match &v[5] {
        ASN1Value::Sequence(entries) => read_bindings(entries),
        ASN1Value::Trap(entries) => read_bindings(entries),
        _ => return Err(SnmpError::ASN1Error(asn1::Error::WrongType)),
    };
    Ok(
        Trap {
            enterprise_oid: oid,
            agent_address: addr,
            generic: generic,
            specific: specific,
            time_ticks: time_ticks,
            variables: variables,
        },
    )
}

impl SnmpV1PDU {
    /// Reads a value as a protocol data unit: the body of a trap is read as
    /// a trap, and any other value is an unsupported unit.
    pub fn new(a: ASN1Value) -> (pdu: Result<SnmpV1PDU, SnmpError>)
        ensures
            match pdu {
                Ok(p) => spec_pdu(a@) == Ok::<PduView, SnmpErrorView>(p@),
                Err(e) => spec_pdu(a@) == Err::<PduView, SnmpErrorView>(e@),
            },
    {
        match a {
            ASN1Value::Trap(a) => {
                let trap = decode_trap(a.as_slice())?;
                Ok(SnmpV1PDU::Trap(trap))
            },
            _ => Err(SnmpError::UnsupportedPdu),
        }
    }

    /// The trap that the unit carries.
    pub fn as_trap(self) -> (trap: Result<Trap, SnmpError>)
        ensures
            trap matches Ok(t) && PduView::Trap(t@) == self@,
    {
        match self {
            SnmpV1PDU::Trap(t) => Ok(t),
        }
    }
}

impl SnmpPacket {
    /// Reads a datagram as a message.
    ///
    /// The result is what [`spec_parse_packet`] gives for the octets: the
    /// message, or the error of the first check that fails. The version is
    /// judged as the number that was decoded, in its full width, so a
    /// datagram whose version is not the number 0 is never read as a
    /// version 1 message. The enterprise identifier of a trap that is
    /// returned has two arcs or more.
    pub fn new(b: &[u8]) -> (packet: Result<SnmpPacket, SnmpError>)
        ensures
            match packet {
                Ok(p) => spec_parse_packet(b@) == Ok::<PacketView, SnmpErrorView>(p@),
                Err(e) => spec_parse_packet(b@) == Err::<PacketView, SnmpErrorView>(e@),
            },
            packet matches Ok(SnmpPacket::V1(p)) ==> (p.pdu matches SnmpV1PDU::Trap(trap)
                && trap.enterprise_oid@.len() >= 2),
    {
        proof {
            lemma_enterprise_has_two_arcs(b@);
        }
        let mut c = ASN1Reader::new(b);
        let decoded = match decode_value(&mut c) {
            Ok(decoded) => decoded,
            Err(e) => return Err(SnmpError::ASN1Error(e)),
        };
        let sequence = match decoded.as_sequence() {
            Ok(sequence) => sequence,
            Err(e) => return Err(SnmpError::ASN1Error(e)),
        };
        if sequence.len() < 3 {
            return Err(SnmpError::WrongType);
        }
        let version_is_0 = match &sequence[0] {
            ASN1Value::Integer(n) => *n == 0,
            ASN1Value::TimeTicks(n) => *n == 0,
            _ => return Err(SnmpError::ASN1Error(asn1::Error::WrongType)),
        };
        if !version_is_0 {
            return Err(SnmpError::UnsupportedVersion);
        }
        let community = match sequence[1].clone().as_string() {
            Ok(community) => community,
            Err(e) => return Err(SnmpError::ASN1Error(e)),
        };
        let pdu = SnmpV1PDU::new(sequence[2].clone())?;
        Ok(SnmpPacket::V1(SnmpV1Packet { community: community, pdu: pdu }))
    }

    /// The version 1 message that the packet is.
    pub fn as_v1(self) -> (v1: Result<SnmpV1Packet, SnmpError>)
        ensures
            v1 matches Ok(p) && PacketView::V1(p@) == self@,
    {
        match self {
            SnmpPacket::V1(p) => Ok(p),
        }
    }
}

/// Reads a datagram as a message: [`SnmpPacket::new`] under the name of the
/// operation.
pub fn parse_packet(bytes: &[u8]) -> (packet: Result<SnmpPacket, SnmpError>)
    ensures
        match packet {
            Ok(p) => spec_parse_packet(bytes@) == Ok::<PacketView, SnmpErrorView>(p@),
            Err(e) => spec_parse_packet(bytes@) == Err::<PacketView, SnmpErrorView>(e@),
        },
{
    SnmpPacket::new(bytes)
}

} // verus!
