//! Protobuf wire primitives.
//!
//! The byte-level encoders and decoders are prost's; this module states what
//! they write and read as spec functions over byte sequences, and proves the
//! facts about those spec functions that the message codec needs.

use prost::encoding::{DecodeContext, WireType};
use vstd::prelude::*;
use vstd::utf8::{decode_utf8, encode_utf8, valid_utf8};

verus! {

/// LEB128 encoding of `v`, least significant group first, as prost's
/// `encode_varint` writes it.
pub open spec fn varint_bytes(v: nat) -> Seq<u8>
    decreases v,
{
    if v < 128 {
        seq![v as u8]
    } else {
        seq![(v % 128 + 128) as u8] + varint_bytes(v / 128)
    }
}

/// Reads the varint that starts at `s[0]`, where `s[0]` is byte number `k`
/// of the varint. The value is returned with the number of bytes read.
/// A varint has at most ten bytes, and its tenth byte must be 0 or 1.
pub open spec fn varint_from(s: Seq<u8>, k: nat) -> Option<(nat, nat)>
    decreases s.len(),
{
    if s.len() == 0 || k >= 10 {
        None
    } else if s[0] < 128 {
        if k == 9 && s[0] >= 2 {
            None
        } else {
            Some((s[0] as nat, 1))
        }
    } else {
        match varint_from(s.drop_first(), k + 1) {
            Some((v, n)) => Some((((s[0] - 128) + 128 * v) as nat, n + 1)),
            None => None,
        }
    }
}

/// What prost's `decode_varint` reads from the front of `s`: the value and
/// the number of bytes it takes, or `None` when `s` holds no valid varint.
pub open spec fn varint_decode(s: Seq<u8>) -> Option<(nat, nat)> {
    varint_from(s, 0)
}

/// Exclusive upper bound of the value held by a varint whose first byte is
/// byte number `k`.
pub open spec fn varint_bound(k: nat) -> nat
    decreases 10 - k,
{
    if k >= 9 {
        2
    } else {
        128 * varint_bound(k + 1)
    }
}

pub proof fn lemma_varint_bound_zero()
    ensures
        varint_bound(0) == 0x1_0000_0000_0000_0000,
{
    reveal_with_fuel(varint_bound, 11);
}

/// Each position's bound is 128 times the next one's, and at least 256 before
/// the last position.
pub proof fn lemma_varint_bound_step(k: nat)
    ensures
        k < 9 ==> varint_bound(k) == 128 * varint_bound(k + 1) && varint_bound(k) >= 256,
        varint_bound(k) >= 2,
    decreases 10 - k,
{
    if k < 9 {
        lemma_varint_bound_step(k + 1);
    }
}

/// A decoded varint stays under the bound of its position, takes at least one
/// byte and no more than are left of its ten.
pub proof fn lemma_varint_from_facts(s: Seq<u8>, k: nat)
    ensures
        varint_from(s, k) matches Some((v, n)) ==> 1 <= n <= s.len() && k + n <= 10 && v
            < varint_bound(k),
    decreases s.len(),
{
    lemma_varint_bound_step(k);
    if s.len() > 0 && k < 10 && s[0] >= 128 {
        lemma_varint_from_facts(s.drop_first(), k + 1);
    }
}

/// Decoding reads back exactly what encoding wrote, whatever follows it.
pub proof fn lemma_varint_from_bytes(v: nat, k: nat, rest: Seq<u8>)
    requires
        k < 10,
        v < varint_bound(k),
    ensures
        varint_from(varint_bytes(v) + rest, k) == Some((v, varint_bytes(v).len())),
    decreases v,
{
    let s = varint_bytes(v) + rest;
    if v < 128 {
        assert(s[0] == v as u8);
        if k == 9 {
            assert(v < 2);
        }
    } else {
        if k >= 9 {
            assert(v < 2);
        }
        assert(varint_bound(k) == 128 * varint_bound(k + 1));
        lemma_varint_from_bytes(v / 128, k + 1, rest);
        assert(s.drop_first() =~= varint_bytes(v / 128) + rest);
    }
}

/// The `u64` form of the varint round trip.
pub proof fn lemma_varint_roundtrip(v: u64, rest: Seq<u8>)
    ensures
        varint_decode(varint_bytes(v as nat) + rest) == Some((v as nat, varint_bytes(v as nat).len())),
{
    lemma_varint_bound_zero();
    lemma_varint_from_bytes(v as nat, 0, rest);
}

/// prost's `encode_varint`: appends the LEB128 encoding of `value`.
#[verifier::external_body]
pub(crate) fn encode_varint(value: u64, buf: &mut Vec<u8>)
    ensures
        final(buf)@ == old(buf)@ + varint_bytes(value as nat),
{
    prost::encoding::encode_varint(value, buf)
}

/// prost's `decode_varint` on a byte slice: on success the value and the part
/// of the slice after the varint; it fails exactly when `varint_decode` finds
/// no varint.
#[verifier::external_body]
pub(crate) fn decode_varint<'a>(buf: &'a [u8]) -> (res: Result<(u64, &'a [u8]), prost::DecodeError>)
    ensures
        match varint_decode(buf@) {
            Some((v, n)) => res matches Ok((x, rest)) && x as nat == v && rest@ == buf@.subrange(
                n as int,
                buf@.len() as int,
            ),
            None => res is Err,
        },
{
    let mut rest = buf;
    match prost::encoding::decode_varint(&mut rest) {
        Ok(value) => Ok((value, rest)),
        Err(e) => Err(e),
    }
}

/// prost's decoding error, carried through as it is.
#[verifier::external_type_specification]
#[verifier::external_body]
pub struct ExDecodeError(prost::DecodeError);

/// The wire type of a protobuf field, as its key carries it.
#[derive(Clone, Copy, PartialEq, Eq, Structural, Debug)]
pub enum WireKind {
    Varint,
    SixtyFourBit,
    LengthDelimited,
    StartGroup,
    EndGroup,
    ThirtyTwoBit,
}

/// The number that stands for a wire type in the low three bits of a key.
pub open spec fn wire_code(w: WireKind) -> nat {
    match w {
        WireKind::Varint => 0,
        WireKind::SixtyFourBit => 1,
        WireKind::LengthDelimited => 2,
        WireKind::StartGroup => 3,
        WireKind::EndGroup => 4,
        WireKind::ThirtyTwoBit => 5,
    }
}

/// The wire type that a key's low three bits name, if any.
pub open spec fn wire_kind_of(code: nat) -> Option<WireKind> {
    if code == 0 {
        Some(WireKind::Varint)
    } else if code == 1 {
        Some(WireKind::SixtyFourBit)
    } else if code == 2 {
        Some(WireKind::LengthDelimited)
    } else if code == 3 {
        Some(WireKind::StartGroup)
    } else if code == 4 {
        Some(WireKind::EndGroup)
    } else if code == 5 {
        Some(WireKind::ThirtyTwoBit)
    } else {
        None
    }
}

/// Field numbers that protobuf allows.
pub open spec fn is_field_tag(tag: nat) -> bool {
    1 <= tag <= 0x1fff_ffff
}

/// The key of a field: its number and wire type packed into one varint.
pub open spec fn key_bytes(tag: nat, w: WireKind) -> Seq<u8> {
    varint_bytes(tag * 8 + wire_code(w))
}

/// What prost's `decode_key` reads: field number, wire type and the number of
/// bytes of the key. A key must fit in 32 bits, name a known wire type and a
/// field number of at least 1.
pub open spec fn key_decode(s: Seq<u8>) -> Option<(u32, WireKind, nat)> {
    match varint_decode(s) {
        Some((key, n)) => if key > 0xffff_ffff || key / 8 < 1 {
            None
        } else {
            match wire_kind_of(key % 8) {
                Some(w) => Some(((key / 8) as u32, w, n)),
                None => None,
            }
        },
        None => None,
    }
}

/// A varint field: its key, then the value.
pub open spec fn varint_field(tag: nat, value: nat) -> Seq<u8> {
    key_bytes(tag, WireKind::Varint) + varint_bytes(value)
}

/// A length-delimited field: its key, the payload's length, then the payload.
pub open spec fn length_delimited_field(tag: nat, payload: Seq<u8>) -> Seq<u8> {
    key_bytes(tag, WireKind::LengthDelimited) + varint_bytes(payload.len()) + payload
}

/// Reads a length prefix and the payload it announces: the payload and the
/// number of bytes taken, or `None` when the prefix is malformed or the
/// payload runs past the end of `s`.
pub open spec fn length_delimited_decode(s: Seq<u8>) -> Option<(Seq<u8>, nat)> {
    match varint_decode(s) {
        Some((len, n)) => if n + len <= s.len() {
            Some((s.subrange(n as int, (n + len) as int), n + len))
        } else {
            None
        },
        None => None,
    }
}

/// `value as u64` for an `i32`: negative values are sign-extended.
pub open spec fn i32_as_u64(value: i32) -> nat {
    if value >= 0 {
        value as nat
    } else {
        (value + 0x1_0000_0000_0000_0000) as nat
    }
}

/// `value as u32` for a decoded varint: the low 32 bits.
pub open spec fn truncate_u32(value: nat) -> u32 {
    (value % 0x1_0000_0000) as u32
}

/// `value as i32` for a decoded varint: the low 32 bits, two's complement.
pub open spec fn truncate_i32(value: nat) -> i32 {
    let low = value % 0x1_0000_0000;
    if low < 0x8000_0000 {
        low as i32
    } else {
        (low - 0x1_0000_0000) as i32
    }
}

/// A key reads back as the field number and wire type it was written with.
pub proof fn lemma_key_roundtrip(tag: nat, w: WireKind, rest: Seq<u8>)
    requires
        is_field_tag(tag),
    ensures
        key_decode(key_bytes(tag, w) + rest) == Some((tag as u32, w, key_bytes(tag, w).len())),
{
    let key = tag * 8 + wire_code(w);
    assert(key < 0x1_0000_0000);
    assert(key / 8 == tag && key % 8 == wire_code(w)) by (nonlinear_arith)
        requires
            key == tag * 8 + wire_code(w),
            wire_code(w) < 8,
    ;
    lemma_varint_roundtrip(key as u64, rest);
}

/// A length prefix followed by that many bytes reads back as those bytes.
pub proof fn lemma_length_delimited_roundtrip(payload: Seq<u8>, rest: Seq<u8>)
    requires
        payload.len() < 0x1_0000_0000_0000_0000,
    ensures
        length_delimited_decode(varint_bytes(payload.len()) + payload + rest) == Some(
            (payload, varint_bytes(payload.len()).len() + payload.len()),
        ),
{
    let prefix = varint_bytes(payload.len());
    let s = prefix + payload + rest;
    lemma_varint_roundtrip(payload.len() as u64, payload + rest);
    assert(s =~= prefix + (payload + rest));
    assert(s.subrange(prefix.len() as int, (prefix.len() + payload.len()) as int) =~= payload);
}

/// A varint cut short never reads as a varint: every byte before its last
/// one announces a continuation.
pub proof fn lemma_varint_prefix_fails(v: nat, k: nat, j: nat)
    requires
        j < varint_bytes(v).len(),
    ensures
        varint_from(varint_bytes(v).take(j as int), k) is None,
    decreases v,
{
    let s = varint_bytes(v).take(j as int);
    if j > 0 && k < 10 {
        assert(v >= 128);
        assert(s[0] == varint_bytes(v)[0]);
        assert(s.drop_first() =~= varint_bytes(v / 128).take(j - 1));
        lemma_varint_prefix_fails(v / 128, k + 1, (j - 1) as nat);
    }
}

/// A length-delimited payload cut short never reads as one.
pub proof fn lemma_length_delimited_prefix_fails(payload: Seq<u8>, j: nat)
    requires
        payload.len() < 0x1_0000_0000_0000_0000,
        j < varint_bytes(payload.len()).len() + payload.len(),
    ensures
        length_delimited_decode((varint_bytes(payload.len()) + payload).take(j as int)) is None,
{
    let prefix = varint_bytes(payload.len());
    let cut = (prefix + payload).take(j as int);
    if j < prefix.len() {
        assert(cut =~= prefix.take(j as int));
        lemma_varint_prefix_fails(payload.len(), 0, j);
    } else {
        assert(cut =~= prefix + payload.take(j - prefix.len()));
        lemma_varint_roundtrip(payload.len() as u64, payload.take(j - prefix.len()));
    }
}

/// Bytes after a varint do not change how it reads.
pub proof fn lemma_varint_extend(s: Seq<u8>, k: nat, rest: Seq<u8>)
    requires
        varint_from(s, k) is Some,
    ensures
        varint_from(s + rest, k) == varint_from(s, k),
    decreases s.len(),
{
    let t = s + rest;
    assert(t[0] == s[0]);
    if s[0] >= 128 {
        assert(t.drop_first() =~= s.drop_first() + rest);
        lemma_varint_extend(s.drop_first(), k + 1, rest);
    }
}

/// Bytes after a length-delimited payload do not change how it reads.
pub proof fn lemma_length_delimited_extend(s: Seq<u8>, rest: Seq<u8>)
    requires
        length_delimited_decode(s) is Some,
    ensures
        length_delimited_decode(s + rest) == length_delimited_decode(s),
{
    lemma_varint_extend(s, 0, rest);
    let (len, n) = varint_decode(s).unwrap();
    assert((s + rest).subrange(n as int, (n + len) as int) =~= s.subrange(n as int, (n + len) as int));
}

/// prost's `decode_key`: the field number, the wire type and the rest of the
/// slice after the key; it fails exactly when `key_decode` does.
#[verifier::external_body]
pub(crate) fn decode_key<'a>(buf: &'a [u8]) -> (res: Result<(u32, WireKind, &'a [u8]), prost::DecodeError>)
    ensures
        match key_decode(buf@) {
            Some((tag, w, n)) => res matches Ok((t, x, rest)) && t == tag && x == w && rest@
                == buf@.subrange(n as int, buf@.len() as int),
            None => res is Err,
        },
{
    let mut rest = buf;
    match prost::encoding::decode_key(&mut rest) {
        Ok((tag, WireType::Varint)) => Ok((tag, WireKind::Varint, rest)),
        Ok((tag, WireType::SixtyFourBit)) => Ok((tag, WireKind::SixtyFourBit, rest)),
        Ok((tag, WireType::LengthDelimited)) => Ok((tag, WireKind::LengthDelimited, rest)),
        Ok((tag, WireType::StartGroup)) => Ok((tag, WireKind::StartGroup, rest)),
        Ok((tag, WireType::EndGroup)) => Ok((tag, WireKind::EndGroup, rest)),
        Ok((tag, WireType::ThirtyTwoBit)) => Ok((tag, WireKind::ThirtyTwoBit, rest)),
        Err(e) => Err(e),
    }
}

/// prost's `string::encode`: appends the field with number `tag` holding the
/// UTF-8 bytes of `value`.
#[verifier::external_body]
pub(crate) fn encode_string_field(tag: u32, value: &String, buf: &mut Vec<u8>)
    requires
        is_field_tag(tag as nat),
    ensures
        final(buf)@ == old(buf)@ + length_delimited_field(tag as nat, encode_utf8(value@)),
{
    prost::encoding::string::encode(tag, value, buf)
}

/// prost's `bytes::encode`: appends the field with number `tag` holding
/// `value`.
#[verifier::external_body]
pub(crate) fn encode_bytes_field(tag: u32, value: &Vec<u8>, buf: &mut Vec<u8>)
    requires
        is_field_tag(tag as nat),
    ensures
        final(buf)@ == old(buf)@ + length_delimited_field(tag as nat, value@),
{
    prost::encoding::bytes::encode(tag, value, buf)
}

/// prost's `uint64::encode`: appends the varint field with number `tag`.
#[verifier::external_body]
pub(crate) fn encode_uint64_field(tag: u32, value: &u64, buf: &mut Vec<u8>)
    requires
        is_field_tag(tag as nat),
    ensures
        final(buf)@ == old(buf)@ + varint_field(tag as nat, *value as nat),
{
    prost::encoding::uint64::encode(tag, value, buf)
}

/// prost's `uint32::encode`: appends the varint field with number `tag`.
#[verifier::external_body]
pub(crate) fn encode_uint32_field(tag: u32, value: &u32, buf: &mut Vec<u8>)
    requires
        is_field_tag(tag as nat),
    ensures
        final(buf)@ == old(buf)@ + varint_field(tag as nat, *value as nat),
{
    prost::encoding::uint32::encode(tag, value, buf)
}

/// prost's `int32::encode`: appends the varint field with number `tag`; a
/// negative value is sign-extended to 64 bits first.
#[verifier::external_body]
pub(crate) fn encode_int32_field(tag: u32, value: &i32, buf: &mut Vec<u8>)
    requires
        is_field_tag(tag as nat),
    ensures
        final(buf)@ == old(buf)@ + varint_field(tag as nat, i32_as_u64(*value)),
{
    prost::encoding::int32::encode(tag, value, buf)
}

/// prost's `string::merge`: for a length-delimited field whose payload is
/// valid UTF-8, replaces `value` with the decoded text and returns the rest of
/// the slice; it fails in every other case.
#[verifier::external_body]
pub(crate) fn merge_string_field<'a>(wire: WireKind, value: &mut String, buf: &'a [u8]) -> (res: Result<&'a [u8], prost::DecodeError>)
    ensures
        match length_delimited_decode(buf@) {
            Some((payload, n)) => if wire == WireKind::LengthDelimited && valid_utf8(payload) {
                res matches Ok(rest) && rest@ == buf@.subrange(n as int, buf@.len() as int)
                    && final(value)@ == decode_utf8(payload)
            } else {
                res is Err
            },
            None => res is Err,
        },
{
    let mut rest = buf;
    let wire_type = match wire {
        WireKind::Varint => WireType::Varint,
        WireKind::SixtyFourBit => WireType::SixtyFourBit,
        WireKind::LengthDelimited => WireType::LengthDelimited,
        WireKind::StartGroup => WireType::StartGroup,
        WireKind::EndGroup => WireType::EndGroup,
        WireKind::ThirtyTwoBit => WireType::ThirtyTwoBit,
    };
    match prost::encoding::string::merge(wire_type, value, &mut rest, DecodeContext::default()) {
        Ok(()) => Ok(rest),
        Err(e) => Err(e),
    }
}

/// prost's `bytes::merge` for a `Vec<u8>`: for a length-delimited field,
/// replaces `value` with the payload and returns the rest of the slice; it
/// fails in every other case.
#[verifier::external_body]
pub(crate) fn merge_bytes_field<'a>(wire: WireKind, value: &mut Vec<u8>, buf: &'a [u8]) -> (res: Result<&'a [u8], prost::DecodeError>)
    ensures
        match length_delimited_decode(buf@) {
            Some((payload, n)) => if wire == WireKind::LengthDelimited {
                res matches Ok(rest) && rest@ == buf@.subrange(n as int, buf@.len() as int)
                    && final(value)@ == payload
            } else {
                res is Err
            },
            None => res is Err,
        },
{
    let mut rest = buf;
    let wire_type = match wire {
        WireKind::Varint => WireType::Varint,
        WireKind::SixtyFourBit => WireType::SixtyFourBit,
        WireKind::LengthDelimited => WireType::LengthDelimited,
        WireKind::StartGroup => WireType::StartGroup,
        WireKind::EndGroup => WireType::EndGroup,
        WireKind::ThirtyTwoBit => WireType::ThirtyTwoBit,
    };
    match prost::encoding::bytes::merge(wire_type, value, &mut rest, DecodeContext::default()) {
        Ok(()) => Ok(rest),
        Err(e) => Err(e),
    }
}

/// prost's `uint64::merge`: for a varint field, stores the value and returns
/// the rest of the slice; it fails in every other case.
#[verifier::external_body]
pub(crate) fn merge_uint64_field<'a>(wire: WireKind, value: &mut u64, buf: &'a [u8]) -> (res: Result<&'a [u8], prost::DecodeError>)
    ensures
        match varint_decode(buf@) {
            Some((v, n)) => if wire == WireKind::Varint {
                res matches Ok(rest) && rest@ == buf@.subrange(n as int, buf@.len() as int)
                    && *final(value) as nat == v
            } else {
                res is Err
            },
            None => res is Err,
        },
{
    let mut rest = buf;
    let wire_type = match wire {
        WireKind::Varint => WireType::Varint,
        WireKind::SixtyFourBit => WireType::SixtyFourBit,
        WireKind::LengthDelimited => WireType::LengthDelimited,
        WireKind::StartGroup => WireType::StartGroup,
        WireKind::EndGroup => WireType::EndGroup,
        WireKind::ThirtyTwoBit => WireType::ThirtyTwoBit,
    };
    match prost::encoding::uint64::merge(wire_type, value, &mut rest, DecodeContext::default()) {
        Ok(()) => Ok(rest),
        Err(e) => Err(e),
    }
}

/// prost's `uint32::merge`: for a varint field, stores the low 32 bits of
/// the value and returns the rest of the slice; it fails in every other case.
#[verifier::external_body]
pub(crate) fn merge_uint32_field<'a>(wire: WireKind, value: &mut u32, buf: &'a [u8]) -> (res: Result<&'a [u8], prost::DecodeError>)
    ensures
        match varint_decode(buf@) {
            Some((v, n)) => if wire == WireKind::Varint {
                res matches Ok(rest) && rest@ == buf@.subrange(n as int, buf@.len() as int)
                    && *final(value) == truncate_u32(v)
            } else {
                res is Err
            },
            None => res is Err,
        },
{
    let mut rest = buf;
    let wire_type = match wire {
        WireKind::Varint => WireType::Varint,
        WireKind::SixtyFourBit => WireType::SixtyFourBit,
        WireKind::LengthDelimited => WireType::LengthDelimited,
        WireKind::StartGroup => WireType::StartGroup,
        WireKind::EndGroup => WireType::EndGroup,
        WireKind::ThirtyTwoBit => WireType::ThirtyTwoBit,
    };
    match prost::encoding::uint32::merge(wire_type, value, &mut rest, DecodeContext::default()) {
        Ok(()) => Ok(rest),
        Err(e) => Err(e),
    }
}

/// prost's `int32::merge`: for a varint field, stores the low 32 bits of the
/// value as a signed number and returns the rest of the slice; it fails in
/// every other case.
#[verifier::external_body]
pub(crate) fn merge_int32_field<'a>(wire: WireKind, value: &mut i32, buf: &'a [u8]) -> (res: Result<&'a [u8], prost::DecodeError>)
    ensures
        match varint_decode(buf@) {
            Some((v, n)) => if wire == WireKind::Varint {
                res matches Ok(rest) && rest@ == buf@.subrange(n as int, buf@.len() as int)
                    && *final(value) == truncate_i32(v)
            } else {
                res is Err
            },
            None => res is Err,
        },
{
    let mut rest = buf;
    let wire_type = match wire {
        WireKind::Varint => WireType::Varint,
        WireKind::SixtyFourBit => WireType::SixtyFourBit,
        WireKind::LengthDelimited => WireType::LengthDelimited,
        WireKind::StartGroup => WireType::StartGroup,
        WireKind::EndGroup => WireType::EndGroup,
        WireKind::ThirtyTwoBit => WireType::ThirtyTwoBit,
    };
    match prost::encoding::int32::merge(wire_type, value, &mut rest, DecodeContext::default()) {
        Ok(()) => Ok(rest),
        Err(e) => Err(e),
    }
}

/// How many bytes prost's `skip_field` passes over inside a group with
/// field number `tag`, from the front of `s` up to and including the
/// end-group key that closes it, when each field inside may enter `depth`
/// more levels of nesting; `None` when it fails. Each key is read in turn:
/// an end-group key closes the group if its number is `tag` and fails
/// otherwise; any other field is passed over as `skip_len_at` says.
pub open spec fn group_skip_len(depth: nat, tag: u32, s: Seq<u8>) -> Option<nat>
    decreases s.len(), 0nat,
{
    match key_decode(s) {
        Some((inner, w, n)) => if 1 <= n && n <= s.len() {
            if w == WireKind::EndGroup {
                if inner == tag {
                    Some(n)
                } else {
                    None
                }
            } else {
                let body = s.subrange(n as int, s.len() as int);
                match skip_len_at(depth, w, inner, body) {
                    Some(k) => if k <= body.len() {
                        match group_skip_len(depth, tag, body.subrange(k as int, body.len() as int)) {
                            Some(m) => Some(n + k + m),
                            None => None,
                        }
                    } else {
                        None
                    },
                    None => None,
                }
            }
        } else {
            None
        },
        None => None,
    }
}

/// How many bytes prost's `skip_field` passes over for the value of a field
/// with wire type `w` and number `tag` at the front of `s`, when `depth`
/// more levels of nesting may be entered (a fresh `DecodeContext` allows
/// 100; the fields of a length-delimited message get one fewer); `None` when
/// it fails. No depth left fails at once; a varint, a fixed-width value or a
/// delimited payload is passed over by its length; a group by
/// `group_skip_len`, its fields with one level fewer; an end-group key on
/// its own fails.
pub open spec fn skip_len_at(depth: nat, w: WireKind, tag: u32, s: Seq<u8>) -> Option<nat>
    decreases s.len(), 1nat,
{
    if depth == 0 {
        None
    } else {
        match w {
            WireKind::Varint => match varint_decode(s) {
                Some((v, n)) => Some(n),
                None => None,
            },
            WireKind::SixtyFourBit => if s.len() >= 8 {
                Some(8)
            } else {
                None
            },
            WireKind::ThirtyTwoBit => if s.len() >= 4 {
                Some(4)
            } else {
                None
            },
            WireKind::LengthDelimited => match length_delimited_decode(s) {
                Some((payload, n)) => Some(n),
                None => None,
            },
            WireKind::StartGroup => group_skip_len((depth - 1) as nat, tag, s),
            WireKind::EndGroup => None,
        }
    }
}

/// The depth a fresh `DecodeContext` allows.
pub open spec fn fresh_depth() -> nat {
    100
}

/// Whether prost, skipping every field, can walk the fields in `s` to its
/// end with `depth` levels of nesting left for each.
pub open spec fn fields_skip(s: Seq<u8>, depth: nat) -> bool
    decreases s.len(),
{
    if s.len() == 0 {
        true
    } else {
        match key_decode(s) {
            Some((tag, w, n)) => {
                let body = s.subrange(n as int, s.len() as int);
                match skip_len_at(depth, w, tag, body) {
                    Some(k) => if 1 <= n && n + k <= s.len() {
                        fields_skip(body.subrange(k as int, body.len() as int), depth)
                    } else {
                        false
                    },
                    None => false,
                }
            },
            None => false,
        }
    }
}

/// A varint field is passed over whole, and the walk goes on after it.
pub proof fn lemma_fields_skip_varint_field(tag: nat, v: u64, rest: Seq<u8>, depth: nat)
    requires
        is_field_tag(tag),
        depth > 0,
    ensures
        fields_skip(varint_field(tag, v as nat) + rest, depth) == fields_skip(rest, depth),
{
    let key = key_bytes(tag, WireKind::Varint);
    let s = varint_field(tag, v as nat) + rest;
    lemma_key_roundtrip(tag, WireKind::Varint, varint_bytes(v as nat) + rest);
    assert(s =~= key + (varint_bytes(v as nat) + rest));
    let body = s.subrange(key.len() as int, s.len() as int);
    assert(body =~= varint_bytes(v as nat) + rest);
    lemma_varint_roundtrip(v, rest);
    assert(body.subrange(varint_bytes(v as nat).len() as int, body.len() as int) =~= rest);
}

/// A length-delimited field is passed over whole, and the walk goes on
/// after it.
pub proof fn lemma_fields_skip_length_delimited_field(
    tag: nat,
    payload: Seq<u8>,
    rest: Seq<u8>,
    depth: nat,
)
    requires
        is_field_tag(tag),
        depth > 0,
        payload.len() < 0x1_0000_0000_0000_0000,
    ensures
        fields_skip(length_delimited_field(tag, payload) + rest, depth) == fields_skip(rest, depth),
{
    let key = key_bytes(tag, WireKind::LengthDelimited);
    let s = length_delimited_field(tag, payload) + rest;
    lemma_key_roundtrip(tag, WireKind::LengthDelimited, varint_bytes(payload.len()) + payload + rest);
    assert(s =~= key + (varint_bytes(payload.len()) + payload + rest));
    let body = s.subrange(key.len() as int, s.len() as int);
    assert(body =~= varint_bytes(payload.len()) + payload + rest);
    lemma_length_delimited_roundtrip(payload, rest);
    assert(body.subrange((varint_bytes(payload.len()).len() + payload.len()) as int, body.len() as int)
        =~= rest);
}

/// prost's `decode_length_delimited` for the message that knows no field
/// (`()`, google.protobuf.Empty): it reads the length prefix and walks the
/// frame's fields with `skip_field`, one level of nesting below a fresh
/// context. It succeeds exactly when the frame is whole and that walk
/// reaches the frame's end.
#[verifier::external_body]
pub(crate) fn check_frame_fields(buf: &[u8]) -> (res: Result<(), prost::DecodeError>)
    ensures
        match length_delimited_decode(buf@) {
            Some((body, n)) => res is Ok <==> fields_skip(body, (fresh_depth() - 1) as nat),
            None => res is Err,
        },
{
    match <() as prost::Message>::decode_length_delimited(buf) {
        Ok(()) => Ok(()),
        Err(e) => Err(e),
    }
}

/// prost's `skip_field` with a fresh `DecodeContext`: passes over the value
/// of a field that the message does not know, by the length `skip_len_at`
/// gives.
#[verifier::external_body]
pub(crate) fn skip_field<'a>(wire: WireKind, tag: u32, buf: &'a [u8]) -> (res: Result<&'a [u8], prost::DecodeError>)
    ensures
        match skip_len_at(fresh_depth(), wire, tag, buf@) {
            Some(n) => n <= buf@.len() && (res matches Ok(rest) && rest@ == buf@.subrange(
                n as int,
                buf@.len() as int,
            )),
            None => res is Err,
        },
{
    let mut rest = buf;
    let wire_type = match wire {
        WireKind::Varint => WireType::Varint,
        WireKind::SixtyFourBit => WireType::SixtyFourBit,
        WireKind::LengthDelimited => WireType::LengthDelimited,
        WireKind::StartGroup => WireType::StartGroup,
        WireKind::EndGroup => WireType::EndGroup,
        WireKind::ThirtyTwoBit => WireType::ThirtyTwoBit,
    };
    match prost::encoding::skip_field(wire_type, tag, &mut rest, DecodeContext::default()) {
        Ok(()) => Ok(rest),
        Err(e) => Err(e),
    }
}

} // verus!
