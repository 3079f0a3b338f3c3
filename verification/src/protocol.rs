//! The SNMP reading of a decoded value as mathematics: which trees of values
//! are a version 1 message with a trap, and what that message is.
//!
//! The executable functions of [`crate::snmp`] are verified to compute
//! exactly the functions of this module.

use crate::asn1::{Error, IpAddr};
use crate::snmp::GenericTrap;
use crate::wire::{
    lemma_decoded_oids_have_two_arcs, oids_have_two_arcs, spec_decode_value, Value,
};
use vstd::prelude::*;

verus! {

/// The mathematical counterpart of [`crate::snmp::SnmpError`].
pub enum SnmpErrorView {
    ASN1Error(Error),
    WrongType,
    UnsupportedVersion,
    UnsupportedPdu,
    Generic(Seq<char>),
}

/// The mathematical counterpart of [`crate::snmp::Trap`].
pub struct TrapView {
    pub enterprise_oid: Seq<u32>,
    pub agent_address: IpAddr,
    pub generic: GenericTrap,
    pub specific: u32,
    pub time_ticks: u32,
    pub variables: Seq<(Value, Value)>,
}

/// The mathematical counterpart of [`crate::snmp::SnmpV1PDU`].
pub enum PduView {
    Trap(TrapView),
}

/// The mathematical counterpart of [`crate::snmp::SnmpV1Packet`].
pub struct V1PacketView {
    pub community: Seq<char>,
    pub pdu: PduView,
}

/// The mathematical counterpart of [`crate::snmp::SnmpPacket`].
pub enum PacketView {
    V1(V1PacketView),
}

/// The trap category that a code on the wire names: the codes 0 to 6, in
/// the order of the variants, and no other.
pub open spec fn generic_trap(code: u32) -> Option<GenericTrap> {
    match code {
        0u32 => Some(GenericTrap::ColdStart),
        1u32 => Some(GenericTrap::WarmStart),
        2u32 => Some(GenericTrap::LinkDown),
        3u32 => Some(GenericTrap::LinkUp),
        4u32 => Some(GenericTrap::AuthenticationFailure),
        5u32 => Some(GenericTrap::EgpNeighborLoss),
        6u32 => Some(GenericTrap::EnterpriseSpecific),
        _ => None,
    }
}

/// The name and the value of one variable binding: the first two items of
/// an entry that is a container of two items or more. Any other entry is
/// malformed and gives no pair.
pub open spec fn binding(entry: Value) -> Option<(Value, Value)> {
    match entry.as_sequence() {
        Ok(items) => if items.len() >= 2 {
            Some((items[0], items[1]))
        } else {
            None
        },
        Err(_) => None,
    }
}

/// The variable bindings of a trap: the pairs of the well-formed entries, in
/// the order of the entries. Malformed entries are passed over.
pub open spec fn bindings(entries: Seq<Value>) -> Seq<(Value, Value)>
    decreases entries.len(),
{
    if entries.len() == 0 {
        Seq::empty()
    } else {
        let before = bindings(entries.drop_last());
        match binding(entries.last()) {
            Some(pair) => before.push(pair),
            None => before,
        }
    }
}

/// Text of the failure for a trap of fewer than six fields.
pub open spec fn invalid_length_text() -> Seq<char> {
    "invalid length"@
}

/// Text of the failure for a trap category that is none of the seven.
pub open spec fn unknown_category_text() -> Seq<char> {
    "idk"@
}

/// The trap that the fields `v` of a trap body spell.
///
/// Six fields are needed, and further ones are ignored: the enterprise
/// identifier, the agent's address, the category, the specific code, the
/// time ticks, and the container of variable bindings. The fields are
/// examined in this order, and the first that does not fit decides the
/// error.
pub open spec fn spec_decode_trap(v: Seq<Value>) -> Result<TrapView, SnmpErrorView> {
    if v.len() < 6 {
        Err(SnmpErrorView::Generic(invalid_length_text()))
    } else {
        match v[0].as_oid() {
            Err(e) => Err(SnmpErrorView::ASN1Error(e)),
            Ok(enterprise_oid) => match v[1].as_ipaddr() {
                Err(e) => Err(SnmpErrorView::ASN1Error(e)),
                Ok(agent_address) => match v[2].as_u32() {
                    Err(e) => Err(SnmpErrorView::ASN1Error(e)),
                    Ok(code) => match generic_trap(code) {
                        None => Err(SnmpErrorView::Generic(unknown_category_text())),
                        Some(generic) => match v[3].as_u32() {
                            Err(e) => Err(SnmpErrorView::ASN1Error(e)),
                            Ok(specific) => match v[4].as_u32() {
                                Err(e) => Err(SnmpErrorView::ASN1Error(e)),
                                Ok(time_ticks) => match v[5].as_sequence() {
                                    Err(e) => Err(SnmpErrorView::ASN1Error(e)),
                                    Ok(entries) => Ok(
                                        TrapView {
                                            enterprise_oid,
                                            agent_address,
                                            generic,
                                            specific,
                                            time_ticks,
                                            variables: bindings(entries),
                                        },
                                    ),
                                },
                            },
                        },
                    },
                },
            },
        }
    }
}

/// The protocol data unit that a value is: the body of a trap, and nothing
/// else.
pub open spec fn spec_pdu(a: Value) -> Result<PduView, SnmpErrorView> {
    match a {
        Value::Trap(fields) => match spec_decode_trap(fields) {
            Ok(trap) => Ok(PduView::Trap(trap)),
            Err(e) => Err(e),
        },
        _ => Err(SnmpErrorView::UnsupportedPdu),
    }
}

/// The version number that a value spells, where it is one: the whole
/// number of an integer or of a tick count, before any narrowing. A value
/// of another variant is a `WrongType`.
pub open spec fn version_number(v: Value) -> Result<int, Error> {
    match v {
        Value::Integer(n) => Ok(n as int),
        Value::TimeTicks(n) => Ok(n as int),
        _ => Err(Error::WrongType),
    }
}

/// The message that a decoded value is.
///
/// The value must be a container of three items or more: the version, which
/// must be the number 0; the community, which must be text; and the protocol
/// data unit. The checks are made in this order, and the first that fails
/// decides the error. The version is judged as the number that was
/// decoded: no number other than 0 passes for 0, however wide it is.
pub open spec fn spec_message(value: Value) -> Result<PacketView, SnmpErrorView> {
    match value.as_sequence() {
        Err(e) => Err(SnmpErrorView::ASN1Error(e)),
        Ok(items) => if items.len() < 3 {
            Err(SnmpErrorView::WrongType)
        } else {
            match version_number(items[0]) {
                Err(e) => Err(SnmpErrorView::ASN1Error(e)),
                Ok(version) => if version != 0 {
                    Err(SnmpErrorView::UnsupportedVersion)
                } else {
                    match items[1].as_string() {
                        Err(e) => Err(SnmpErrorView::ASN1Error(e)),
                        Ok(community) => match spec_pdu(items[2]) {
                            Err(e) => Err(e),
                            Ok(pdu) => Ok(PacketView::V1(V1PacketView { community, pdu })),
                        },
                    }
                },
            }
        },
    }
}

/// The message that a datagram carries: the message that its first value
/// is. Octets behind that value are not looked at.
pub open spec fn spec_parse_packet(data: Seq<u8>) -> Result<PacketView, SnmpErrorView> {
    match spec_decode_value(data, 0) {
        Err(e) => Err(SnmpErrorView::ASN1Error(e)),
        Ok((value, _)) => spec_message(value),
    }
}

/// Only version 0 passes: a container of three items or more whose first
/// item is an integer other than 0 is rejected as an unsupported version,
/// whatever the integer and whatever the other items are.
pub proof fn lemma_version_gate(value: Value)
    requires
        value.as_sequence() matches Ok(items) && items.len() >= 3 && {
            &&& items[0] matches Value::Integer(n)
            &&& n != 0
        },
    ensures
        spec_message(value) == Err::<PacketView, SnmpErrorView>(SnmpErrorView::UnsupportedVersion),
{
}

/// A version that comes as a tick count is held to the same rule: any count
/// other than 0 is rejected as an unsupported version.
pub proof fn lemma_version_gate_for_ticks(value: Value)
    requires
        value.as_sequence() matches Ok(items) && items.len() >= 3 && {
            &&& items[0] matches Value::TimeTicks(n)
            &&& n != 0
        },
    ensures
        spec_message(value) == Err::<PacketView, SnmpErrorView>(SnmpErrorView::UnsupportedVersion),
{
}

/// The version gate on the datagram: where the first value of a datagram is
/// a container of three items or more whose first item is an integer other
/// than 0, the datagram is rejected as an unsupported version.
pub proof fn lemma_version_gate_on_datagram(data: Seq<u8>)
    requires
        spec_decode_value(data, 0) matches Ok((value, _)) && (value.as_sequence() matches Ok(items)
            && items.len() >= 3 && (items[0] matches Value::Integer(n) && n != 0)),
    ensures
        spec_parse_packet(data) == Err::<PacketView, SnmpErrorView>(
            SnmpErrorView::UnsupportedVersion,
        ),
{
}

/// No message is accepted under another version: where a datagram is a
/// message, its first value is a container whose first item is the
/// number 0, as an integer or as a tick count.
pub proof fn lemma_accepted_is_version_0(data: Seq<u8>)
    requires
        spec_parse_packet(data) is Ok,
    ensures
        spec_decode_value(data, 0) matches Ok((value, _)) && (value.as_sequence() matches Ok(items)
            && items.len() >= 3 && (items[0] == Value::Integer(0) || items[0] == Value::TimeTicks(
            0,
        ))),
{
}

/// The enterprise identifier of a trap that came off the wire has two arcs
/// or more.
pub proof fn lemma_enterprise_has_two_arcs(data: Seq<u8>)
    ensures
        spec_parse_packet(data) matches Ok(PacketView::V1(packet)) ==> {
            &&& packet.pdu matches PduView::Trap(trap)
            &&& trap.enterprise_oid.len() >= 2
        },
{
    lemma_decoded_oids_have_two_arcs(data, 0);
    match spec_decode_value(data, 0) {
        Ok((value, _)) => {
            match value.as_sequence() {
                Ok(items) => {
                    if items.len() >= 3 {
                        assert(oids_have_two_arcs(items[2]));
                        match items[2] {
                            Value::Trap(fields) => {
                                if fields.len() >= 6 {
                                    assert(oids_have_two_arcs(fields[0]));
                                }
                            },
                            _ => {},
                        }
                    }
                },
                Err(e) => {},
            }
        },
        Err(e) => {},
    }
}

/// The bindings of two runs of entries joined are the bindings of the first
/// followed by those of the second.
pub proof fn lemma_bindings_joined(first: Seq<Value>, second: Seq<Value>)
    ensures
        bindings(first + second) == bindings(first) + bindings(second),
    decreases second.len(),
{
    if second.len() == 0 {
        assert(first + second =~= first);
        assert(bindings(first) + bindings(second) =~= bindings(first));
    } else {
        let whole = first + second;
        assert(whole.drop_last() =~= first + second.drop_last());
        assert(whole.last() == second.last());
        lemma_bindings_joined(first, second.drop_last());
        let shorter = bindings(second.drop_last());
        match binding(second.last()) {
            Some(pair) => {
                assert((bindings(first) + shorter).push(pair) =~= bindings(first) + shorter.push(
                    pair,
                ));
            },
            None => {},
        }
    }
}

/// A malformed entry is passed over: an entry that is no container, or one
/// of fewer than two items, leaves the bindings as they are without it,
/// wherever among the entries it stands.
pub proof fn lemma_malformed_binding_skipped(before: Seq<Value>, entry: Value, behind: Seq<Value>)
    requires
        entry.as_sequence() matches Ok(items) ==> items.len() < 2,
    ensures
        bindings(before + seq![entry] + behind) == bindings(before + behind),
{
    lemma_bindings_joined(before + seq![entry], behind);
    lemma_bindings_joined(before, seq![entry]);
    lemma_bindings_joined(before, behind);
    assert(seq![entry].drop_last() =~= Seq::<Value>::empty());
    assert(bindings(seq![entry]) =~= Seq::<(Value, Value)>::empty()) by {
        reveal_with_fuel(bindings, 2);
    }
    assert(bindings(before) + Seq::<(Value, Value)>::empty() =~= bindings(before));
}

/// A malformed entry does not fail the trap: the fields of a trap with such
/// an entry among its bindings spell the same trap, or the same error, as
/// with that entry taken out.
pub proof fn lemma_malformed_binding_keeps_trap(
    v: Seq<Value>,
    before: Seq<Value>,
    entry: Value,
    behind: Seq<Value>,
)
    requires
        v.len() >= 6,
        v[5] == Value::Sequence(before + seq![entry] + behind),
        entry.as_sequence() matches Ok(items) ==> items.len() < 2,
    ensures
        spec_decode_trap(v) == spec_decode_trap(v.update(5, Value::Sequence(before + behind))),
{
    lemma_malformed_binding_skipped(before, entry, behind);
}

} // verus!
