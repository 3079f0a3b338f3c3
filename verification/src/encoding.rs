//! How object identifiers are written, and the proof that reading gives
//! back what was written.
//!
//! Nothing here runs: the library only decodes. The encoders are the
//! mathematical statement of the format, against which the decoder of
//! [`crate::wire`] is held.

use crate::asn1::Error;
use crate::wire::{
    be_value, lemma_base128_advances, spec_decode_value, spec_read_arcs, spec_read_base128_from,
    spec_read_base128int, spec_read_length, spec_read_oid, spec_read_tag_value, Value,
};
use vstd::prelude::*;

verus! {

/// The octets that carry all but the lowest seven bits of an arc, when
/// those bits spell `n`: the digits of `n` in base 128, most significant
/// first, each with the high bit set.
pub open spec fn arc_lead(n: nat) -> Seq<u8>
    decreases n,
{
    if n == 0 {
        Seq::empty()
    } else {
        arc_lead(n / 128).push((128 + n % 128) as u8)
    }
}

/// An arc in base 128: as few octets as hold it, the high bit set on every
/// octet but the last.
pub open spec fn encode_arc(arc: u32) -> Seq<u8> {
    arc_lead(arc as nat / 128).push((arc % 128) as u8)
}

/// Arcs in base 128, one after the other.
pub open spec fn encode_arcs(arcs: Seq<u32>) -> Seq<u8>
    decreases arcs.len(),
{
    if arcs.len() == 0 {
        Seq::empty()
    } else {
        encode_arc(arcs.first()) + encode_arcs(arcs.drop_first())
    }
}

/// The content octets of an object identifier: the two leading arcs in one
/// octet, forty times the first plus the second, and every further arc in
/// base 128.
pub open spec fn encode_oid(arcs: Seq<u32>) -> Seq<u8>
    recommends
        encodable(arcs),
{
    seq![(arcs[0] * 40 + arcs[1]) as u8] + encode_arcs(arcs.skip(2))
}

/// The identifiers that the format can carry so that they come back: two
/// arcs or more, the first at most 2 and the second at most 39.
pub open spec fn encodable(arcs: Seq<u32>) -> bool {
    arcs.len() >= 2 && arcs[0] <= 2 && arcs[1] <= 39
}

/// The digits of `n` in base 256, most significant first and without
/// leading zeros.
pub open spec fn be_octets(n: nat) -> Seq<u8>
    decreases n,
{
    if n == 0 {
        Seq::empty()
    } else {
        be_octets(n / 256).push((n % 256) as u8)
    }
}

/// A length field for `n`: the one octet `n` where `n` is below 127, and
/// else the number of digits, with the high bit set, before the digits of
/// `n` in base 256.
pub open spec fn encode_length(n: nat) -> Seq<u8>
    recommends
        be_octets(n).len() <= 127,
{
    if n < 127 {
        seq![n as u8]
    } else {
        seq![(128 + be_octets(n).len()) as u8] + be_octets(n)
    }
}

/// An object identifier as a whole value: its tag, the length of its
/// content, and the content.
pub open spec fn encode_oid_value(arcs: Seq<u32>) -> Seq<u8> {
    seq![0x06u8] + encode_length(encode_oid(arcs).len()) + encode_oid(arcs)
}

/// Whether `data` holds `piece` at the index `pos`.
pub open spec fn holds_at(data: Seq<u8>, pos: int, piece: Seq<u8>) -> bool {
    0 <= pos && pos + piece.len() <= data.len() && data.subrange(pos, pos + piece.len()) == piece
}

/// A buffer that holds two pieces joined holds the first where the joined
/// piece begins, and the second behind the first.
pub proof fn lemma_holds_joined(data: Seq<u8>, pos: int, first: Seq<u8>, second: Seq<u8>)
    requires
        holds_at(data, pos, first + second),
    ensures
        holds_at(data, pos, first),
        holds_at(data, pos + first.len(), second),
{
    let whole = first + second;
    assert(data.subrange(pos, pos + first.len()) =~= whole.subrange(0, first.len() as int));
    assert(whole.subrange(0, first.len() as int) =~= first);
    assert(data.subrange(pos + first.len(), pos + first.len() + second.len()) =~= whole.subrange(
        first.len() as int,
        whole.len() as int,
    ));
    assert(whole.subrange(first.len() as int, whole.len() as int) =~= second);
}

/// The leading octets of an arc are at most four where the arc fits 32 bits.
proof fn lemma_lead_len(n: nat)
    ensures
        n == 0 ==> arc_lead(n).len() == 0,
        n < 128 ==> arc_lead(n).len() <= 1,
        n < 0x4000 ==> arc_lead(n).len() <= 2,
        n < 0x20_0000 ==> arc_lead(n).len() <= 3,
        n < 0x1000_0000 ==> arc_lead(n).len() <= 4,
    decreases n,
{
    if n != 0 {
        lemma_lead_len(n / 128);
    }
}

/// Reading across the leading octets of an arc: the octets that spell `n`
/// leave `n` in the accumulator.
proof fn lemma_read_lead(data: Seq<u8>, pos: int, n: nat)
    requires
        n < 0x200_0000,
        holds_at(data, pos, arc_lead(n)),
    ensures
        arc_lead(n).len() <= 4,
        spec_read_base128int(data, pos) == spec_read_base128_from(
            data,
            pos + arc_lead(n).len(),
            n as u32,
            arc_lead(n).len(),
        ),
    decreases n,
{
    lemma_lead_len(n);
    if n != 0 {
        let shorter = arc_lead(n / 128);
        let last = seq![(128 + n % 128) as u8];
        assert(arc_lead(n) =~= shorter + last);
        lemma_holds_joined(data, pos, shorter, last);
        lemma_read_lead(data, pos, n / 128);
        let at = pos + shorter.len();
        assert(data[at] == data.subrange(at, at + 1)[0]);
    }
}

/// Reading gives back an arc from its octets.
pub proof fn lemma_arc_round_trip(data: Seq<u8>, pos: int, arc: u32)
    requires
        holds_at(data, pos, encode_arc(arc)),
    ensures
        spec_read_base128int(data, pos) == Ok::<(u32, int), Error>(
            (arc, pos + encode_arc(arc).len()),
        ),
{
    let lead = arc_lead(arc as nat / 128);
    let last = seq![(arc % 128) as u8];
    assert(encode_arc(arc) =~= lead + last);
    lemma_holds_joined(data, pos, lead, last);
    lemma_read_lead(data, pos, arc as nat / 128);
    let at = pos + lead.len();
    assert(data[at] == data.subrange(at, at + 1)[0]);
}

/// Reading gives back a run of arcs from its octets, and ends behind them.
pub proof fn lemma_arcs_round_trip(data: Seq<u8>, pos: int, arcs: Seq<u32>)
    requires
        holds_at(data, pos, encode_arcs(arcs)),
    ensures
        spec_read_arcs(data, pos, pos + encode_arcs(arcs).len()) == Ok::<(Seq<u32>, int), Error>(
            (arcs, pos + encode_arcs(arcs).len()),
        ),
    decreases arcs.len(),
{
    if arcs.len() == 0 {
        assert(arcs =~= Seq::empty());
    } else {
        let first = encode_arc(arcs.first());
        let rest = encode_arcs(arcs.drop_first());
        lemma_holds_joined(data, pos, first, rest);
        lemma_arc_round_trip(data, pos, arcs.first());
        lemma_arcs_round_trip(data, pos + first.len(), arcs.drop_first());
        assert(seq![arcs.first()] + arcs.drop_first() =~= arcs);
    }
}

/// Decoding the content of an object identifier gives back the arcs that
/// were encoded: for every identifier of two arcs or more whose first arc
/// is at most 2 and whose second is at most 39, a buffer that holds its
/// content at `pos` decodes there, under the content's length, to the same
/// arcs, and the decoder ends behind the content.
pub proof fn lemma_oid_round_trip(data: Seq<u8>, pos: int, arcs: Seq<u32>)
    requires
        encodable(arcs),
        holds_at(data, pos, encode_oid(arcs)),
    ensures
        spec_read_oid(data, pos, encode_oid(arcs).len()) == Ok::<(Seq<u32>, int), Error>(
            (arcs, pos + encode_oid(arcs).len()),
        ),
{
    let lead = seq![(arcs[0] * 40 + arcs[1]) as u8];
    let tail = encode_arcs(arcs.skip(2));
    lemma_holds_joined(data, pos, lead, tail);
    lemma_arcs_round_trip(data, pos + 1, arcs.skip(2));
    assert(data[pos] == data.subrange(pos, pos + 1)[0]);
    let first = data[pos];
    assert(first / 40 == arcs[0] && first % 40 == arcs[1]);
    assert(seq![(first / 40) as u32, (first % 40) as u32] + arcs.skip(2) =~= arcs);
}

/// The digits of a number spell that number.
pub proof fn lemma_be_octets_value(n: nat)
    ensures
        be_value(be_octets(n)) == n,
    decreases n,
{
    if n != 0 {
        lemma_be_octets_value(n / 256);
        assert(be_octets(n).drop_last() =~= be_octets(n / 256));
    }
}

/// A number of 127 or more has at least one digit.
proof fn lemma_be_octets_nonempty(n: nat)
    ensures
        n > 0 ==> be_octets(n).len() >= 1,
{
}

/// Reading gives back a length from its field.
pub proof fn lemma_length_round_trip(data: Seq<u8>, pos: int, n: nat)
    requires
        be_octets(n).len() <= 127,
        holds_at(data, pos, encode_length(n)),
    ensures
        spec_read_length(data, pos) == Ok::<(nat, int), Error>((n, pos + encode_length(n).len())),
{
    if n < 127 {
        assert(data[pos] == data.subrange(pos, pos + 1)[0]);
    } else {
        let digits = be_octets(n);
        let lead = seq![(128 + digits.len()) as u8];
        lemma_be_octets_nonempty(n);
        lemma_holds_joined(data, pos, lead, digits);
        assert(data[pos] == data.subrange(pos, pos + 1)[0]);
        lemma_be_octets_value(n);
    }
}

/// Decoding gives back an object identifier from its encoding: for every
/// identifier of two arcs or more whose first arc is at most 2 and whose
/// second is at most 39, and whose content is short enough for a length
/// field, a buffer that holds the encoded value at `pos` decodes there to
/// the identifier with exactly these arcs, and the decoder ends behind the
/// value.
pub proof fn lemma_oid_value_round_trip(data: Seq<u8>, pos: int, arcs: Seq<u32>)
    requires
        encodable(arcs),
        be_octets(encode_oid(arcs).len()).len() <= 127,
        holds_at(data, pos, encode_oid_value(arcs)),
    ensures
        spec_decode_value(data, pos) == Ok::<(Value, int), Error>(
            (Value::ObjectIdentifier(arcs), pos + encode_oid_value(arcs).len()),
        ),
{
    let content = encode_oid(arcs);
    let field = encode_length(content.len());
    let tag = seq![0x06u8];
    lemma_holds_joined(data, pos, tag + field, content);
    lemma_holds_joined(data, pos, tag, field);
    assert(data[pos] == data.subrange(pos, pos + 1)[0]);
    lemma_length_round_trip(data, pos + 1, content.len());
    lemma_oid_round_trip(data, pos + 1 + field.len(), arcs);
}

} // verus!
