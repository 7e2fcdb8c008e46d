//! Encoding and decoding of the image messages, bare and length-delimited.
//!
//! A message is the sequence of its fields in field-number order, each field
//! left out when it holds its default. Decoding reads fields until the bytes
//! run out: a later occurrence of a field replaces an earlier one, and fields
//! of unknown number are skipped.

use crate::schema::{
    empty_request, empty_response, ImageRequest, ImageResponse, RequestFields, ResponseFields,
};
use crate::wire::{
    decode_key, decode_varint, encode_bytes_field, encode_int32_field, encode_string_field,
    encode_uint32_field, encode_uint64_field, encode_varint, i32_as_u64, key_bytes, key_decode,
    lemma_key_roundtrip, lemma_length_delimited_extend, lemma_length_delimited_prefix_fails,
    lemma_length_delimited_roundtrip, lemma_varint_from_facts, lemma_varint_roundtrip,
    length_delimited_decode, length_delimited_field, merge_bytes_field, merge_int32_field,
    merge_string_field, merge_uint32_field, merge_uint64_field, skip_field, skip_len_at, fresh_depth, fields_skip, check_frame_fields, lemma_fields_skip_varint_field, lemma_fields_skip_length_delimited_field,
    is_field_tag, truncate_i32, truncate_u32, varint_bytes, varint_decode, varint_field, WireKind,
};
use vstd::prelude::*;
use vstd::utf8::{decode_utf8, encode_utf8, encode_utf8_decode_utf8, encode_utf8_valid_utf8, valid_utf8};

verus! {

/// Why bytes could not be decoded into a message.
#[derive(Debug)]
pub enum DecodeFailure {
    /// prost rejected a key, a value or a length prefix.
    Wire(prost::DecodeError),
    /// The length prefix announces more bytes than there are.
    Truncated,
}

/// The encoding of a request.
pub open spec fn request_bytes(m: RequestFields) -> Seq<u8> {
    (if m.path.len() > 0 {
        length_delimited_field(1, encode_utf8(m.path))
    } else {
        Seq::empty()
    }) + (if m.request_id != 0 {
        varint_field(2, m.request_id as nat)
    } else {
        Seq::empty()
    })
}

/// The request after reading the value of one field with number `tag` and
/// wire type `w` from the front of `s`, with the number of bytes the value
/// took.
pub open spec fn request_field(acc: RequestFields, tag: u32, w: WireKind, s: Seq<u8>) -> Option<
    (RequestFields, nat),
> {
    if tag == 1 {
        match length_delimited_decode(s) {
            Some((payload, k)) => if w == WireKind::LengthDelimited && valid_utf8(payload) {
                Some((RequestFields { path: decode_utf8(payload), ..acc }, k))
            } else {
                None
            },
            None => None,
        }
    } else if tag == 2 {
        match varint_decode(s) {
            Some((v, k)) => if w == WireKind::Varint {
                Some((RequestFields { request_id: v as u64, ..acc }, k))
            } else {
                None
            },
            None => None,
        }
    } else {
        match skip_len_at(fresh_depth(), w, tag, s) {
            Some(k) => if k <= s.len() {
                Some((acc, k))
            } else {
                None
            },
            None => None,
        }
    }
}

/// Reads the fields in `s` into `acc`, one after the other.
pub open spec fn request_merge(acc: RequestFields, s: Seq<u8>) -> Option<RequestFields>
    decreases s.len(),
{
    if s.len() == 0 {
        Some(acc)
    } else {
        match key_decode(s) {
            Some((tag, w, n)) => {
                let body = s.subrange(n as int, s.len() as int);
                match request_field(acc, tag, w, body) {
                    Some((next, k)) => {
                        proof {
                            lemma_key_decode_len(s);
                            lemma_request_field_len(acc, tag, w, body);
                        }
                        request_merge(next, body.subrange(k as int, body.len() as int))
                    },
                    None => None,
                }
            },
            None => None,
        }
    }
}

/// The request that `s` encodes, if any.
pub open spec fn request_decode(s: Seq<u8>) -> Option<RequestFields> {
    request_merge(empty_request(), s)
}

/// A key takes at least one byte and no more than there are.
pub proof fn lemma_key_decode_len(s: Seq<u8>)
    ensures
        key_decode(s) matches Some((tag, w, n)) ==> 1 <= n <= s.len(),
{
    lemma_varint_from_facts(s, 0);
}

/// A field value takes no more bytes than there are.
pub proof fn lemma_request_field_len(acc: RequestFields, tag: u32, w: WireKind, s: Seq<u8>)
    ensures
        request_field(acc, tag, w, s) matches Some((next, k)) ==> k <= s.len(),
{
    lemma_varint_from_facts(s, 0);
}

/// Reads the request-id field at the front of `s`, then the rest.
proof fn lemma_request_id_field(acc: RequestFields, id: u64, rest: Seq<u8>)
    ensures
        request_merge(acc, varint_field(2, id as nat) + rest) == request_merge(
            RequestFields { request_id: id, ..acc },
            rest,
        ),
{
    let key = key_bytes(2, WireKind::Varint);
    let s = varint_field(2, id as nat) + rest;
    lemma_key_roundtrip(2, WireKind::Varint, varint_bytes(id as nat) + rest);
    assert(s =~= key + (varint_bytes(id as nat) + rest));
    let body = s.subrange(key.len() as int, s.len() as int);
    assert(body =~= varint_bytes(id as nat) + rest);
    lemma_varint_roundtrip(id, rest);
    assert(body.subrange(varint_bytes(id as nat).len() as int, body.len() as int) =~= rest);
}

/// Reads the path field at the front of `s`, then the rest.
proof fn lemma_request_path_field(acc: RequestFields, path: Seq<char>, rest: Seq<u8>)
    requires
        encode_utf8(path).len() < 0x1_0000_0000_0000_0000,
    ensures
        request_merge(acc, length_delimited_field(1, encode_utf8(path)) + rest) == request_merge(
            RequestFields { path: path, ..acc },
            rest,
        ),
{
    let text = encode_utf8(path);
    let key = key_bytes(1, WireKind::LengthDelimited);
    let s = length_delimited_field(1, text) + rest;
    lemma_key_roundtrip(1, WireKind::LengthDelimited, varint_bytes(text.len()) + text + rest);
    assert(s =~= key + (varint_bytes(text.len()) + text + rest));
    let body = s.subrange(key.len() as int, s.len() as int);
    assert(body =~= varint_bytes(text.len()) + text + rest);
    lemma_length_delimited_roundtrip(text, rest);
    encode_utf8_valid_utf8(path);
    encode_utf8_decode_utf8(path);
    assert(body.subrange((varint_bytes(text.len()).len() + text.len()) as int, body.len() as int)
        =~= rest);
}

/// Reads the encoding of `m`, then whatever follows it, into a fresh
/// request.
proof fn lemma_request_merge_encoding(m: RequestFields, rest: Seq<u8>)
    requires
        encode_utf8(m.path).len() < 0x1_0000_0000_0000_0000,
    ensures
        request_merge(empty_request(), request_bytes(m) + rest) == request_merge(m, rest),
{
    let ids = if m.request_id != 0 {
        varint_field(2, m.request_id as nat)
    } else {
        Seq::empty()
    };
    let with_path = RequestFields { path: m.path, ..empty_request() };
    if m.path.len() > 0 {
        lemma_request_path_field(empty_request(), m.path, ids + rest);
        assert(request_bytes(m) + rest =~= length_delimited_field(1, encode_utf8(m.path)) + (ids + rest));
    } else {
        assert(request_bytes(m) + rest =~= ids + rest);
        assert(m.path =~= Seq::<char>::empty());
    }
    if m.request_id != 0 {
        lemma_request_id_field(with_path, m.request_id, rest);
    } else {
        assert(ids + rest =~= rest);
        assert(with_path == m);
    }
}

/// A length-delimited field whose number the request does not know is
/// passed over.
proof fn lemma_request_unknown_length_delimited(acc: RequestFields, tag: nat, payload: Seq<u8>, rest: Seq<u8>)
    requires
        is_field_tag(tag),
        tag != 1,
        tag != 2,
        payload.len() < 0x1_0000_0000_0000_0000,
    ensures
        request_merge(acc, length_delimited_field(tag, payload) + rest) == request_merge(acc, rest),
{
    let key = key_bytes(tag, WireKind::LengthDelimited);
    let s = length_delimited_field(tag, payload) + rest;
    lemma_key_roundtrip(tag, WireKind::LengthDelimited, varint_bytes(payload.len()) + payload + rest);
    assert(s =~= key + (varint_bytes(payload.len()) + payload + rest));
    let body = s.subrange(key.len() as int, s.len() as int);
    assert(body =~= varint_bytes(payload.len()) + payload + rest);
    lemma_length_delimited_roundtrip(payload, rest);
    assert(body.subrange((varint_bytes(payload.len()).len() + payload.len()) as int, body.len() as int)
        =~= rest);
}

/// A varint field whose number the request does not know is passed over.
proof fn lemma_request_unknown_varint(acc: RequestFields, tag: nat, v: u64, rest: Seq<u8>)
    requires
        is_field_tag(tag),
        tag != 1,
        tag != 2,
    ensures
        request_merge(acc, varint_field(tag, v as nat) + rest) == request_merge(acc, rest),
{
    let key = key_bytes(tag, WireKind::Varint);
    let s = varint_field(tag, v as nat) + rest;
    lemma_key_roundtrip(tag, WireKind::Varint, varint_bytes(v as nat) + rest);
    assert(s =~= key + (varint_bytes(v as nat) + rest));
    let body = s.subrange(key.len() as int, s.len() as int);
    assert(body =~= varint_bytes(v as nat) + rest);
    lemma_varint_roundtrip(v, rest);
    assert(body.subrange(varint_bytes(v as nat).len() as int, body.len() as int) =~= rest);
}

/// A field whose number the request does not know, length-delimited or a
/// varint, is passed over: placed after or before the encoding of a
/// request, it leaves the decoded request unchanged.
pub proof fn law_request_unknown_fields_skipped(m: RequestFields, tag: nat, payload: Seq<u8>, v: u64)
    requires
        is_field_tag(tag),
        tag != 1,
        tag != 2,
        encode_utf8(m.path).len() < 0x1_0000_0000_0000_0000,
        payload.len() < 0x1_0000_0000_0000_0000,
    ensures
        request_decode(request_bytes(m) + length_delimited_field(tag, payload)) == Some(m),
        request_decode(length_delimited_field(tag, payload) + request_bytes(m)) == Some(m),
        request_decode(request_bytes(m) + varint_field(tag, v as nat)) == Some(m),
        request_decode(varint_field(tag, v as nat) + request_bytes(m)) == Some(m),
{
    let e = empty_request();
    lemma_request_merge_encoding(m, length_delimited_field(tag, payload));
    lemma_request_unknown_length_delimited(m, tag, payload, Seq::empty());
    assert(length_delimited_field(tag, payload) + Seq::<u8>::empty() =~= length_delimited_field(tag, payload));
    lemma_request_merge_encoding(m, varint_field(tag, v as nat));
    lemma_request_unknown_varint(m, tag, v, Seq::empty());
    assert(varint_field(tag, v as nat) + Seq::<u8>::empty() =~= varint_field(tag, v as nat));
    lemma_request_unknown_length_delimited(e, tag, payload, request_bytes(m));
    lemma_request_unknown_varint(e, tag, v, request_bytes(m));
    law_request_roundtrip(m);
}

/// A field whose number the request does not know is passed over by the
/// length that prost's `skip_field` takes for its value.
proof fn lemma_request_unknown_value(acc: RequestFields, tag: nat, w: WireKind, value: Seq<u8>, rest: Seq<u8>)
    requires
        is_field_tag(tag),
        tag != 1,
        tag != 2,
        skip_len_at(fresh_depth(), w, tag as u32, value + rest) == Some(value.len()),
    ensures
        request_merge(acc, key_bytes(tag, w) + value + rest) == request_merge(acc, rest),
{
    let key = key_bytes(tag, w);
    let s = key + value + rest;
    lemma_key_roundtrip(tag, w, value + rest);
    assert(s =~= key + (value + rest));
    let body = s.subrange(key.len() as int, s.len() as int);
    assert(body =~= value + rest);
    assert(body.subrange(value.len() as int, body.len() as int) =~= rest);
}

/// The value that prost's `skip_field` passes over for a fixed-width field
/// is its eight or four bytes, and for a group that closes at once, the
/// end-group key.
proof fn lemma_skip_fixed_and_empty_group(tag: nat, fixed64: Seq<u8>, fixed32: Seq<u8>, rest: Seq<u8>)
    requires
        is_field_tag(tag),
        fixed64.len() == 8,
        fixed32.len() == 4,
    ensures
        skip_len_at(fresh_depth(), WireKind::SixtyFourBit, tag as u32, fixed64 + rest) == Some(8nat),
        skip_len_at(fresh_depth(), WireKind::ThirtyTwoBit, tag as u32, fixed32 + rest) == Some(4nat),
        skip_len_at(fresh_depth(), WireKind::StartGroup, tag as u32, key_bytes(tag, WireKind::EndGroup) + rest)
            == Some(key_bytes(tag, WireKind::EndGroup).len()),
{
    lemma_key_roundtrip(tag, WireKind::EndGroup, rest);
    lemma_key_decode_len(key_bytes(tag, WireKind::EndGroup) + rest);
}

/// Fixed-width fields and an empty group whose number the request does not
/// know are passed over too: placed after the encoding of a request, they
/// leave the decoded request unchanged.
pub proof fn law_request_fixed_and_group_fields_skipped(
    m: RequestFields,
    tag: nat,
    fixed64: Seq<u8>,
    fixed32: Seq<u8>,
)
    requires
        is_field_tag(tag),
        tag != 1,
        tag != 2,
        encode_utf8(m.path).len() < 0x1_0000_0000_0000_0000,
        fixed64.len() == 8,
        fixed32.len() == 4,
    ensures
        request_decode(request_bytes(m) + key_bytes(tag, WireKind::SixtyFourBit) + fixed64) == Some(m),
        request_decode(request_bytes(m) + key_bytes(tag, WireKind::ThirtyTwoBit) + fixed32) == Some(m),
        request_decode(
            request_bytes(m) + key_bytes(tag, WireKind::StartGroup) + key_bytes(tag, WireKind::EndGroup),
        ) == Some(m),
{
    let e = Seq::<u8>::empty();
    let end = key_bytes(tag, WireKind::EndGroup);
    lemma_skip_fixed_and_empty_group(tag, fixed64, fixed32, e);
    assert(fixed64 + e =~= fixed64);
    assert(fixed32 + e =~= fixed32);
    assert(end + e =~= end);
    lemma_request_unknown_then_nothing(m, tag, WireKind::SixtyFourBit, fixed64);
    lemma_request_unknown_then_nothing(m, tag, WireKind::ThirtyTwoBit, fixed32);
    lemma_request_unknown_then_nothing(m, tag, WireKind::StartGroup, end);
}

/// A request followed by one field whose number it does not know, passed
/// over whole, reads back as the request.
proof fn lemma_request_unknown_then_nothing(m: RequestFields, tag: nat, w: WireKind, value: Seq<u8>)
    requires
        is_field_tag(tag),
        tag != 1,
        tag != 2,
        encode_utf8(m.path).len() < 0x1_0000_0000_0000_0000,
        skip_len_at(fresh_depth(), w, tag as u32, value) == Some(value.len()),
    ensures
        request_decode(request_bytes(m) + key_bytes(tag, w) + value) == Some(m),
{
    let e = Seq::<u8>::empty();
    assert(value + e =~= value);
    lemma_request_unknown_value(m, tag, w, value, e);
    let field = key_bytes(tag, w) + value;
    assert(field + e =~= field);
    lemma_request_merge_encoding(m, field);
    assert(request_bytes(m) + key_bytes(tag, w) + value =~= request_bytes(m) + field);
}

/// Decoding the encoding of a request gives the request back.
pub proof fn law_request_roundtrip(m: RequestFields)
    requires
        encode_utf8(m.path).len() < 0x1_0000_0000_0000_0000,
    ensures
        request_decode(request_bytes(m)) == Some(m),
{
    let ids = if m.request_id != 0 {
        varint_field(2, m.request_id as nat)
    } else {
        Seq::empty()
    };
    let with_path = RequestFields { path: m.path, ..empty_request() };
    if m.path.len() > 0 {
        lemma_request_path_field(empty_request(), m.path, ids);
    } else {
        assert(request_bytes(m) =~= ids);
        assert(m.path =~= Seq::<char>::empty());
    }
    if m.request_id != 0 {
        lemma_request_id_field(with_path, m.request_id, Seq::empty());
        assert(ids =~= ids + Seq::<u8>::empty());
    }
}

/// The encoding of a response: its fields in order, each left out when it
/// holds its default.
pub open spec fn response_bytes(m: ResponseFields) -> Seq<u8> {
    response_code_part(m) + image_type_part(m) + content_length_part(m) + data_part(m)
        + response_id_part(m)
}

pub open spec fn response_code_part(m: ResponseFields) -> Seq<u8> {
    if m.response_code != 0 {
        varint_field(1, i32_as_u64(m.response_code))
    } else {
        Seq::empty()
    }
}

pub open spec fn image_type_part(m: ResponseFields) -> Seq<u8> {
    if m.image_type != 0 {
        varint_field(2, i32_as_u64(m.image_type))
    } else {
        Seq::empty()
    }
}

pub open spec fn content_length_part(m: ResponseFields) -> Seq<u8> {
    if m.content_length != 0 {
        varint_field(3, m.content_length as nat)
    } else {
        Seq::empty()
    }
}

pub open spec fn data_part(m: ResponseFields) -> Seq<u8> {
    if m.data.len() > 0 {
        length_delimited_field(4, m.data)
    } else {
        Seq::empty()
    }
}

pub open spec fn response_id_part(m: ResponseFields) -> Seq<u8> {
    if m.request_id != 0 {
        varint_field(5, m.request_id as nat)
    } else {
        Seq::empty()
    }
}

/// The response after reading the value of one field with number `tag` and
/// wire type `w` from the front of `s`, with the number of bytes the value
/// took.
pub open spec fn response_field(acc: ResponseFields, tag: u32, w: WireKind, s: Seq<u8>) -> Option<
    (ResponseFields, nat),
> {
    if 1 <= tag <= 3 || tag == 5 {
        match varint_decode(s) {
            Some((v, k)) => if w != WireKind::Varint {
                None
            } else if tag == 1 {
                Some((ResponseFields { response_code: truncate_i32(v), ..acc }, k))
            } else if tag == 2 {
                Some((ResponseFields { image_type: truncate_i32(v), ..acc }, k))
            } else if tag == 3 {
                Some((ResponseFields { content_length: truncate_u32(v), ..acc }, k))
            } else {
                Some((ResponseFields { request_id: v as u64, ..acc }, k))
            },
            None => None,
        }
    } else if tag == 4 {
        match length_delimited_decode(s) {
            Some((payload, k)) => if w == WireKind::LengthDelimited {
                Some((ResponseFields { data: payload, ..acc }, k))
            } else {
                None
            },
            None => None,
        }
    } else {
        match skip_len_at(fresh_depth(), w, tag, s) {
            Some(k) => if k <= s.len() {
                Some((acc, k))
            } else {
                None
            },
            None => None,
        }
    }
}

/// A field value takes no more bytes than there are.
pub proof fn lemma_response_field_len(acc: ResponseFields, tag: u32, w: WireKind, s: Seq<u8>)
    ensures
        response_field(acc, tag, w, s) matches Some((next, k)) ==> k <= s.len(),
{
    lemma_varint_from_facts(s, 0);
}

/// Reads the fields in `s` into `acc`, one after the other.
pub open spec fn response_merge(acc: ResponseFields, s: Seq<u8>) -> Option<ResponseFields>
    decreases s.len(),
{
    if s.len() == 0 {
        Some(acc)
    } else {
        match key_decode(s) {
            Some((tag, w, n)) => {
                let body = s.subrange(n as int, s.len() as int);
                match response_field(acc, tag, w, body) {
                    Some((next, k)) => {
                        proof {
                            lemma_key_decode_len(s);
                            lemma_response_field_len(acc, tag, w, body);
                        }
                        response_merge(next, body.subrange(k as int, body.len() as int))
                    },
                    None => None,
                }
            },
            None => None,
        }
    }
}

/// The response that `s` encodes, if any.
pub open spec fn response_decode(s: Seq<u8>) -> Option<ResponseFields> {
    response_merge(empty_response(), s)
}

/// The response held by the frame at the front of `s`, if any; bytes after
/// the frame are ignored.
pub open spec fn response_frame_decode(s: Seq<u8>) -> Option<ResponseFields> {
    match length_delimited_decode(s) {
        Some((body, n)) => if fields_skip(body, (fresh_depth() - 1) as nat) {
            response_decode(body)
        } else {
            None
        },
        None => None,
    }
}

/// A 32-bit signed value survives sign extension and truncation.
proof fn lemma_i32_roundtrip(v: i32)
    ensures
        truncate_i32(i32_as_u64(v)) == v,
        i32_as_u64(v) < 0x1_0000_0000_0000_0000,
{
    if v < 0 {
        let x = i32_as_u64(v);
        assert(x % 0x1_0000_0000 == v + 0x1_0000_0000) by (nonlinear_arith)
            requires
                x == v + 0x1_0000_0000_0000_0000,
                -0x8000_0000 <= v < 0,
        ;
    }
}

/// The response after storing the varint `v` read for field `tag`.
pub open spec fn with_varint(acc: ResponseFields, tag: u32, v: nat) -> ResponseFields {
    if tag == 1 {
        ResponseFields { response_code: truncate_i32(v), ..acc }
    } else if tag == 2 {
        ResponseFields { image_type: truncate_i32(v), ..acc }
    } else if tag == 3 {
        ResponseFields { content_length: truncate_u32(v), ..acc }
    } else {
        ResponseFields { request_id: v as u64, ..acc }
    }
}

/// Reads a varint field of the response at the front of `s`, then the rest.
proof fn lemma_response_varint_field(acc: ResponseFields, tag: u32, v: u64, rest: Seq<u8>)
    requires
        1 <= tag <= 3 || tag == 5,
    ensures
        response_merge(acc, varint_field(tag as nat, v as nat) + rest) == response_merge(
            with_varint(acc, tag, v as nat),
            rest,
        ),
{
    let key = key_bytes(tag as nat, WireKind::Varint);
    let s = varint_field(tag as nat, v as nat) + rest;
    lemma_key_roundtrip(tag as nat, WireKind::Varint, varint_bytes(v as nat) + rest);
    assert(s =~= key + (varint_bytes(v as nat) + rest));
    let body = s.subrange(key.len() as int, s.len() as int);
    assert(body =~= varint_bytes(v as nat) + rest);
    lemma_varint_roundtrip(v, rest);
    assert(body.subrange(varint_bytes(v as nat).len() as int, body.len() as int) =~= rest);
}

/// Reads the data field of the response at the front of `s`, then the rest.
proof fn lemma_response_data_field(acc: ResponseFields, data: Seq<u8>, rest: Seq<u8>)
    requires
        data.len() < 0x1_0000_0000_0000_0000,
    ensures
        response_merge(acc, length_delimited_field(4, data) + rest) == response_merge(
            ResponseFields { data: data, ..acc },
            rest,
        ),
{
    let key = key_bytes(4, WireKind::LengthDelimited);
    let s = length_delimited_field(4, data) + rest;
    lemma_key_roundtrip(4, WireKind::LengthDelimited, varint_bytes(data.len()) + data + rest);
    assert(s =~= key + (varint_bytes(data.len()) + data + rest));
    let body = s.subrange(key.len() as int, s.len() as int);
    assert(body =~= varint_bytes(data.len()) + data + rest);
    lemma_length_delimited_roundtrip(data, rest);
    assert(body.subrange((varint_bytes(data.len()).len() + data.len()) as int, body.len() as int)
        =~= rest);
}

/// Reading an optional varint field: when the value is the default nothing
/// was written and nothing changes; otherwise the field is read back.
proof fn lemma_response_optional_varint(
    acc: ResponseFields,
    tag: u32,
    v: u64,
    part: Seq<u8>,
    rest: Seq<u8>,
    next: ResponseFields,
)
    requires
        1 <= tag <= 3 || tag == 5,
        v != 0 ==> part == varint_field(tag as nat, v as nat) && next == with_varint(acc, tag, v as nat),
        v == 0 ==> part == Seq::<u8>::empty() && next == acc,
    ensures
        response_merge(acc, part + rest) == response_merge(next, rest),
{
    if v != 0 {
        lemma_response_varint_field(acc, tag, v, rest);
    } else {
        assert(part + rest =~= rest);
    }
}

/// Reads the encoding of `m`, then whatever follows it, into a fresh
/// response.
#[verifier::spinoff_prover]
#[verifier::rlimit(40)]
proof fn lemma_response_merge_encoding(m: ResponseFields, rest: Seq<u8>)
    requires
        m.data.len() < 0x1_0000_0000_0000_0000,
    ensures
        response_merge(empty_response(), response_bytes(m) + rest) == response_merge(m, rest),
{
    let p1 = response_code_part(m);
    let p2 = image_type_part(m);
    let p3 = content_length_part(m);
    let p4 = data_part(m);
    let p5 = response_id_part(m);
    let s4 = p5 + rest;
    let s3 = p4 + s4;
    let s2 = p3 + s3;
    let s1 = p2 + s2;
    assert(response_bytes(m) + rest =~= p1 + s1);
    let a0 = empty_response();
    let a1 = ResponseFields { response_code: m.response_code, ..a0 };
    let a2 = ResponseFields { image_type: m.image_type, ..a1 };
    let a3 = ResponseFields { content_length: m.content_length, ..a2 };
    let a4 = ResponseFields { data: m.data, ..a3 };
    lemma_i32_roundtrip(m.response_code);
    lemma_i32_roundtrip(m.image_type);
    lemma_response_optional_varint(a0, 1, i32_as_u64(m.response_code) as u64, p1, s1, a1);
    lemma_response_optional_varint(a1, 2, i32_as_u64(m.image_type) as u64, p2, s2, a2);
    lemma_response_optional_varint(a2, 3, m.content_length as u64, p3, s3, a3);
    if m.data.len() > 0 {
        lemma_response_data_field(a3, m.data, s4);
    } else {
        assert(m.data =~= Seq::<u8>::empty());
        assert(p4 + s4 =~= s4);
    }
    lemma_response_optional_varint(a4, 5, m.request_id, p5, rest, m);
}

/// Decoding the encoding of a response gives the response back.
pub proof fn law_response_roundtrip(m: ResponseFields)
    requires
        m.data.len() < 0x1_0000_0000_0000_0000,
    ensures
        response_decode(response_bytes(m)) == Some(m),
{
    lemma_response_merge_encoding(m, Seq::empty());
    assert(response_bytes(m) + Seq::<u8>::empty() =~= response_bytes(m));
}

/// A length-delimited field whose number the response does not know is
/// passed over.
proof fn lemma_response_unknown_length_delimited(acc: ResponseFields, tag: nat, payload: Seq<u8>, rest: Seq<u8>)
    requires
        is_field_tag(tag),
        tag > 5,
        payload.len() < 0x1_0000_0000_0000_0000,
    ensures
        response_merge(acc, length_delimited_field(tag, payload) + rest) == response_merge(acc, rest),
{
    let key = key_bytes(tag, WireKind::LengthDelimited);
    let s = length_delimited_field(tag, payload) + rest;
    lemma_key_roundtrip(tag, WireKind::LengthDelimited, varint_bytes(payload.len()) + payload + rest);
    assert(s =~= key + (varint_bytes(payload.len()) + payload + rest));
    let body = s.subrange(key.len() as int, s.len() as int);
    assert(body =~= varint_bytes(payload.len()) + payload + rest);
    lemma_length_delimited_roundtrip(payload, rest);
    assert(body.subrange((varint_bytes(payload.len()).len() + payload.len()) as int, body.len() as int)
        =~= rest);
}

/// A varint field whose number the response does not know is passed over.
proof fn lemma_response_unknown_varint(acc: ResponseFields, tag: nat, v: u64, rest: Seq<u8>)
    requires
        is_field_tag(tag),
        tag > 5,
    ensures
        response_merge(acc, varint_field(tag, v as nat) + rest) == response_merge(acc, rest),
{
    let key = key_bytes(tag, WireKind::Varint);
    let s = varint_field(tag, v as nat) + rest;
    lemma_key_roundtrip(tag, WireKind::Varint, varint_bytes(v as nat) + rest);
    assert(s =~= key + (varint_bytes(v as nat) + rest));
    let body = s.subrange(key.len() as int, s.len() as int);
    assert(body =~= varint_bytes(v as nat) + rest);
    lemma_varint_roundtrip(v, rest);
    assert(body.subrange(varint_bytes(v as nat).len() as int, body.len() as int) =~= rest);
}

/// A field whose number the response does not know, length-delimited or a
/// varint, is passed over: placed after or before the encoding of a
/// response, it leaves the decoded response unchanged.
pub proof fn law_response_unknown_fields_skipped(m: ResponseFields, tag: nat, payload: Seq<u8>, v: u64)
    requires
        is_field_tag(tag),
        tag > 5,
        m.data.len() < 0x1_0000_0000_0000_0000,
        payload.len() < 0x1_0000_0000_0000_0000,
    ensures
        response_decode(response_bytes(m) + length_delimited_field(tag, payload)) == Some(m),
        response_decode(length_delimited_field(tag, payload) + response_bytes(m)) == Some(m),
        response_decode(response_bytes(m) + varint_field(tag, v as nat)) == Some(m),
        response_decode(varint_field(tag, v as nat) + response_bytes(m)) == Some(m),
{
    let e = empty_response();
    lemma_response_merge_encoding(m, length_delimited_field(tag, payload));
    lemma_response_unknown_length_delimited(m, tag, payload, Seq::empty());
    assert(length_delimited_field(tag, payload) + Seq::<u8>::empty() =~= length_delimited_field(tag, payload));
    lemma_response_merge_encoding(m, varint_field(tag, v as nat));
    lemma_response_unknown_varint(m, tag, v, Seq::empty());
    assert(varint_field(tag, v as nat) + Seq::<u8>::empty() =~= varint_field(tag, v as nat));
    lemma_response_unknown_length_delimited(e, tag, payload, response_bytes(m));
    lemma_response_unknown_varint(e, tag, v, response_bytes(m));
    law_response_roundtrip(m);
}

/// A field whose number the response does not know is passed over by the
/// length that prost's `skip_field` takes for its value.
proof fn lemma_response_unknown_value(acc: ResponseFields, tag: nat, w: WireKind, value: Seq<u8>, rest: Seq<u8>)
    requires
        is_field_tag(tag),
        tag > 5,
        skip_len_at(fresh_depth(), w, tag as u32, value + rest) == Some(value.len()),
    ensures
        response_merge(acc, key_bytes(tag, w) + value + rest) == response_merge(acc, rest),
{
    let key = key_bytes(tag, w);
    let s = key + value + rest;
    lemma_key_roundtrip(tag, w, value + rest);
    assert(s =~= key + (value + rest));
    let body = s.subrange(key.len() as int, s.len() as int);
    assert(body =~= value + rest);
    assert(body.subrange(value.len() as int, body.len() as int) =~= rest);
}

/// A response followed by one field whose number it does not know, passed
/// over whole, reads back as the response.
proof fn lemma_response_unknown_then_nothing(m: ResponseFields, tag: nat, w: WireKind, value: Seq<u8>)
    requires
        is_field_tag(tag),
        tag > 5,
        m.data.len() < 0x1_0000_0000_0000_0000,
        skip_len_at(fresh_depth(), w, tag as u32, value) == Some(value.len()),
    ensures
        response_decode(response_bytes(m) + key_bytes(tag, w) + value) == Some(m),
{
    let e = Seq::<u8>::empty();
    assert(value + e =~= value);
    lemma_response_unknown_value(m, tag, w, value, e);
    let field = key_bytes(tag, w) + value;
    assert(field + e =~= field);
    lemma_response_merge_encoding(m, field);
    assert(response_bytes(m) + key_bytes(tag, w) + value =~= response_bytes(m) + field);
}

/// Fixed-width fields and an empty group whose number the response does
/// not know are passed over too: placed after the encoding of a response,
/// they leave the decoded response unchanged.
pub proof fn law_response_fixed_and_group_fields_skipped(
    m: ResponseFields,
    tag: nat,
    fixed64: Seq<u8>,
    fixed32: Seq<u8>,
)
    requires
        is_field_tag(tag),
        tag > 5,
        m.data.len() < 0x1_0000_0000_0000_0000,
        fixed64.len() == 8,
        fixed32.len() == 4,
    ensures
        response_decode(response_bytes(m) + key_bytes(tag, WireKind::SixtyFourBit) + fixed64) == Some(m),
        response_decode(response_bytes(m) + key_bytes(tag, WireKind::ThirtyTwoBit) + fixed32) == Some(m),
        response_decode(
            response_bytes(m) + key_bytes(tag, WireKind::StartGroup) + key_bytes(tag, WireKind::EndGroup),
        ) == Some(m),
{
    let e = Seq::<u8>::empty();
    let end = key_bytes(tag, WireKind::EndGroup);
    lemma_skip_fixed_and_empty_group(tag, fixed64, fixed32, e);
    assert(fixed64 + e =~= fixed64);
    assert(fixed32 + e =~= fixed32);
    assert(end + e =~= end);
    lemma_response_unknown_then_nothing(m, tag, WireKind::SixtyFourBit, fixed64);
    lemma_response_unknown_then_nothing(m, tag, WireKind::ThirtyTwoBit, fixed32);
    lemma_response_unknown_then_nothing(m, tag, WireKind::StartGroup, end);
}

/// A response is written as prost writes its five fields, in order and each
/// left out when it holds its default: the response code as varint field 1
/// and the image type as varint field 2 (each sign-extended to 64 bits),
/// the content length as varint field 3, the image bytes as
/// length-delimited field 4, and the request id as varint field 5. In
/// particular the image bytes stand, as field 4, between the fields before
/// them and the request id.
pub proof fn law_response_layout(m: ResponseFields)
    ensures
        response_bytes(m) == (if m.response_code != 0 {
            varint_field(1, i32_as_u64(m.response_code))
        } else {
            Seq::<u8>::empty()
        }) + (if m.image_type != 0 {
            varint_field(2, i32_as_u64(m.image_type))
        } else {
            Seq::<u8>::empty()
        }) + (if m.content_length != 0 {
            varint_field(3, m.content_length as nat)
        } else {
            Seq::<u8>::empty()
        }) + (if m.data.len() > 0 {
            length_delimited_field(4, m.data)
        } else {
            Seq::<u8>::empty()
        }) + (if m.request_id != 0 {
            varint_field(5, m.request_id as nat)
        } else {
            Seq::<u8>::empty()
        }),
        m.data.len() > 0 ==> response_bytes(m) == response_bytes(
            ResponseFields { data: Seq::empty(), request_id: 0, ..m },
        ) + length_delimited_field(4, m.data) + response_bytes(
            ResponseFields { request_id: m.request_id, ..empty_response() },
        ),
{
    if m.data.len() > 0 {
        let before = ResponseFields { data: Seq::empty(), request_id: 0, ..m };
        let after = ResponseFields { request_id: m.request_id, ..empty_response() };
        assert(response_bytes(before) =~= response_code_part(m) + image_type_part(m)
            + content_length_part(m));
        assert(response_bytes(after) =~= response_id_part(m));
    }
}

/// A length-delimited frame: the length of `body` as a varint, then `body`.
pub open spec fn frame(body: Seq<u8>) -> Seq<u8> {
    varint_bytes(body.len()) + body
}

/// The request held by the frame at the front of `s`, if any; bytes after
/// the frame are ignored.
pub open spec fn request_frame_decode(s: Seq<u8>) -> Option<RequestFields> {
    match length_delimited_decode(s) {
        Some((body, n)) => if fields_skip(body, (fresh_depth() - 1) as nat) {
            request_decode(body)
        } else {
            None
        },
        None => None,
    }
}

/// Every field of an encoded request can be passed over: the walk goes on
/// with what follows the encoding.
proof fn lemma_request_fields_skip(m: RequestFields, tail: Seq<u8>)
    requires
        encode_utf8(m.path).len() < 0x1_0000_0000_0000_0000,
    ensures
        fields_skip(request_bytes(m) + tail, (fresh_depth() - 1) as nat) == fields_skip(
            tail,
            (fresh_depth() - 1) as nat,
        ),
{
    let d = (fresh_depth() - 1) as nat;
    let ids = if m.request_id != 0 {
        varint_field(2, m.request_id as nat)
    } else {
        Seq::empty()
    };
    if m.request_id != 0 {
        lemma_fields_skip_varint_field(2, m.request_id, tail, d);
    } else {
        assert(ids + tail =~= tail);
    }
    if m.path.len() > 0 {
        lemma_fields_skip_length_delimited_field(1, encode_utf8(m.path), ids + tail, d);
        assert(request_bytes(m) + tail =~= length_delimited_field(1, encode_utf8(m.path)) + (ids + tail));
    } else {
        assert(request_bytes(m) + tail =~= ids + tail);
    }
}

/// Reading an optional varint field leaves the walk where it goes on.
proof fn lemma_optional_varint_skip(tag: nat, v: u64, part: Seq<u8>, rest: Seq<u8>)
    requires
        1 <= tag <= 5,
        v != 0 ==> part == varint_field(tag, v as nat),
        v == 0 ==> part == Seq::<u8>::empty(),
    ensures
        fields_skip(part + rest, (fresh_depth() - 1) as nat) == fields_skip(
            rest,
            (fresh_depth() - 1) as nat,
        ),
{
    if v != 0 {
        lemma_fields_skip_varint_field(tag, v, rest, (fresh_depth() - 1) as nat);
    } else {
        assert(part + rest =~= rest);
    }
}

/// Every field of an encoded response can be passed over.
#[verifier::spinoff_prover]
proof fn lemma_response_fields_skip(m: ResponseFields)
    requires
        m.data.len() < 0x1_0000_0000_0000_0000,
    ensures
        fields_skip(response_bytes(m), (fresh_depth() - 1) as nat),
{
    let d = (fresh_depth() - 1) as nat;
    let p1 = response_code_part(m);
    let p2 = image_type_part(m);
    let p3 = content_length_part(m);
    let p4 = data_part(m);
    let p5 = response_id_part(m);
    let s4 = p5;
    let s3 = p4 + s4;
    let s2 = p3 + s3;
    let s1 = p2 + s2;
    assert(response_bytes(m) =~= p1 + s1);
    lemma_i32_roundtrip(m.response_code);
    lemma_i32_roundtrip(m.image_type);
    lemma_optional_varint_skip(5, m.request_id, p5, Seq::empty());
    assert(p5 + Seq::<u8>::empty() =~= p5);
    if m.data.len() > 0 {
        lemma_fields_skip_length_delimited_field(4, m.data, s4, d);
    } else {
        assert(p4 + s4 =~= s4);
    }
    lemma_optional_varint_skip(3, m.content_length as u64, p3, s3);
    lemma_optional_varint_skip(2, i32_as_u64(m.image_type) as u64, p2, s2);
    lemma_optional_varint_skip(1, i32_as_u64(m.response_code) as u64, p1, s1);
}

/// A framed request reads back as the request, whatever follows the frame.
pub proof fn law_request_frame_roundtrip(m: RequestFields, rest: Seq<u8>)
    requires
        request_bytes(m).len() <= usize::MAX,
    ensures
        request_frame_decode(frame(request_bytes(m)) + rest) == Some(m),
{
    let body = request_bytes(m);
    assert(encode_utf8(m.path).len() <= body.len()) by {
        if m.path.len() > 0 {
            assert(body =~= length_delimited_field(1, encode_utf8(m.path)) + (body.subrange(
                length_delimited_field(1, encode_utf8(m.path)).len() as int,
                body.len() as int,
            )));
        } else {
            assert(m.path =~= Seq::<char>::empty());
        }
    }
    lemma_length_delimited_roundtrip(body, rest);
    law_request_roundtrip(m);
    lemma_request_fields_skip(m, Seq::empty());
    assert(body + Seq::<u8>::empty() =~= body);
}

/// A framed request that carries, after its own fields, a field whose
/// number it does not know reads back as the request: the unknown field is
/// passed over, whatever follows the frame.
pub proof fn law_request_frame_unknown_field_skipped(
    m: RequestFields,
    tag: nat,
    payload: Seq<u8>,
    rest: Seq<u8>,
)
    requires
        is_field_tag(tag),
        tag != 1,
        tag != 2,
        request_bytes(m).len() + length_delimited_field(tag, payload).len() <= usize::MAX,
    ensures
        request_frame_decode(frame(request_bytes(m) + length_delimited_field(tag, payload)) + rest)
            == Some(m),
{
    let own = request_bytes(m);
    let unknown = length_delimited_field(tag, payload);
    let body = own + unknown;
    assert(encode_utf8(m.path).len() <= own.len()) by {
        if m.path.len() > 0 {
            assert(own =~= length_delimited_field(1, encode_utf8(m.path)) + (own.subrange(
                length_delimited_field(1, encode_utf8(m.path)).len() as int,
                own.len() as int,
            )));
        } else {
            assert(m.path =~= Seq::<char>::empty());
        }
    }
    assert(payload.len() <= unknown.len());
    lemma_length_delimited_roundtrip(body, rest);
    law_request_unknown_fields_skipped(m, tag, payload, 0);
    lemma_request_fields_skip(m, unknown);
    lemma_fields_skip_length_delimited_field(tag, payload, Seq::empty(), (fresh_depth() - 1) as nat);
    assert(unknown + Seq::<u8>::empty() =~= unknown);
}

/// A framed response reads back as the response, whatever follows the frame.
pub proof fn law_response_frame_roundtrip(m: ResponseFields, rest: Seq<u8>)
    requires
        response_bytes(m).len() <= usize::MAX,
    ensures
        response_frame_decode(frame(response_bytes(m)) + rest) == Some(m),
{
    let body = response_bytes(m);
    assert(m.data.len() <= body.len()) by {
        if m.data.len() > 0 {
            assert(data_part(m).len() >= m.data.len());
        }
    }
    lemma_length_delimited_roundtrip(body, rest);
    law_response_roundtrip(m);
    lemma_response_fields_skip(m);
}

/// A frame cut short holds no request: until its last byte has arrived the
/// receiver waits for more.
pub proof fn law_request_frame_prefix_incomplete(m: RequestFields, j: nat)
    requires
        request_bytes(m).len() <= usize::MAX,
        j < frame(request_bytes(m)).len(),
    ensures
        request_frame_decode(frame(request_bytes(m)).take(j as int)) is None,
{
    lemma_length_delimited_prefix_fails(request_bytes(m), j);
}

/// Whatever follows a whole frame is left alone: the request read from the
/// front of the bytes does not depend on it.
pub proof fn law_request_frame_ignores_what_follows(s: Seq<u8>, rest: Seq<u8>)
    requires
        length_delimited_decode(s) is Some,
    ensures
        request_frame_decode(s + rest) == request_frame_decode(s),
{
    lemma_length_delimited_extend(s, rest);
}

impl ImageRequest {
    /// Appends the encoding of the request to `buf`.
    pub fn encode(&self, buf: &mut Vec<u8>)
        ensures
            final(buf)@ == old(buf)@ + request_bytes(self@),
    {
        if !self.path.as_str().is_empty() {
            encode_string_field(1, &self.path, buf);
        }
        if self.request_id != 0 {
            encode_uint64_field(2, &self.request_id, buf);
        }
    }

    /// The encoding of the request.
    pub fn encode_to_vec(&self) -> (bytes: Vec<u8>)
        ensures
            bytes@ == request_bytes(self@),
    {
        let mut bytes = Vec::new();
        self.encode(&mut bytes);
        bytes
    }

    /// Appends the request to `buf` as a length-delimited frame.
    pub fn encode_length_delimited(&self, buf: &mut Vec<u8>)
        ensures
            final(buf)@ == old(buf)@ + frame(request_bytes(self@)),
    {
        let body = self.encode_to_vec();
        encode_varint(body.len() as u64, buf);
        buf.extend_from_slice(body.as_slice());
    }

    /// Decodes the request that all of `buf` encodes.
    pub fn decode(buf: &[u8]) -> (res: Result<ImageRequest, DecodeFailure>)
        ensures
            match request_decode(buf@) {
                Some(m) => res matches Ok(r) && r@ == m,
                None => res matches Err(DecodeFailure::Wire(_)),
            },
    {
        let mut msg = ImageRequest::default();
        let mut rest = buf;
        while rest.len() > 0
            invariant
                request_merge(msg@, rest@) == request_decode(buf@),
            decreases rest@.len(),
        {
            let ghost before = rest@;
            let ghost acc = msg@;
            let (tag, wire, after_key) = match decode_key(rest) {
                Ok(key) => key,
                Err(e) => return Err(DecodeFailure::Wire(e)),
            };
            proof {
                lemma_key_decode_len(before);
            }
            let ghost body = after_key@;
            let step = if tag == 1 {
                merge_string_field(wire, &mut msg.path, after_key)
            } else if tag == 2 {
                merge_uint64_field(wire, &mut msg.request_id, after_key)
            } else {
                skip_field(wire, tag, after_key)
            };
            match step {
                Ok(after) => {
                    proof {
                        lemma_varint_from_facts(body, 0);
                        let (next, k) = request_field(acc, tag, wire, body).unwrap();
                        assert(msg@ == next);
                        assert(after@ =~= body.subrange(k as int, body.len() as int));
                    }
                    rest = after;
                },
                Err(e) => return Err(DecodeFailure::Wire(e)),
            }
        }
        Ok(msg)
    }

    /// Decodes the request in the length-delimited frame at the front of
    /// `buf`; bytes after the frame are ignored.
    pub fn decode_length_delimited(buf: &[u8]) -> (res: Result<ImageRequest, DecodeFailure>)
        ensures
            match request_frame_decode(buf@) {
                Some(m) => res matches Ok(r) && r@ == m,
                None => res is Err,
            },
            varint_decode(buf@) is None ==> res matches Err(DecodeFailure::Wire(_)),
            varint_decode(buf@) matches Some((len, n)) && n + len > buf@.len() ==> res matches Err(
                DecodeFailure::Truncated,
            ),
            res matches Err(DecodeFailure::Truncated) ==> varint_decode(buf@) matches Some((len, n))
                && n + len > buf@.len(),
    {
        let (len, after) = match decode_varint(buf) {
            Ok(prefix) => prefix,
            Err(e) => return Err(DecodeFailure::Wire(e)),
        };
        if len > after.len() as u64 {
            return Err(DecodeFailure::Truncated);
        }
        let body = vstd::slice::slice_subrange(after, 0, len as usize);
        proof {
            lemma_varint_from_facts(buf@, 0);
            assert(body@ =~= length_delimited_decode(buf@).unwrap().0);
        }
        let message = match ImageRequest::decode(body) {
            Ok(message) => message,
            Err(e) => return Err(e),
        };
        match check_frame_fields(buf) {
            Ok(()) => Ok(message),
            Err(e) => Err(DecodeFailure::Wire(e)),
        }
    }
}

impl ImageResponse {
    /// Appends the encoding of the response to `buf`.
    #[verifier::spinoff_prover]
    pub fn encode(&self, buf: &mut Vec<u8>)
        ensures
            final(buf)@ == old(buf)@ + response_bytes(self@),
    {
        let ghost start = buf@;
        let ghost m = self@;
        if self.response_code != 0 {
            encode_int32_field(1, &self.response_code, buf);
        }
        assert(buf@ =~= start + response_code_part(m));
        if self.image_type != 0 {
            encode_int32_field(2, &self.image_type, buf);
        }
        assert(buf@ =~= start + response_code_part(m) + image_type_part(m));
        if self.content_length != 0 {
            encode_uint32_field(3, &self.content_length, buf);
        }
        assert(buf@ =~= start + response_code_part(m) + image_type_part(m) + content_length_part(m));
        if self.data.len() > 0 {
            encode_bytes_field(4, &self.data, buf);
        }
        assert(buf@ =~= start + response_code_part(m) + image_type_part(m) + content_length_part(m)
            + data_part(m));
        if self.request_id != 0 {
            encode_uint64_field(5, &self.request_id, buf);
        }
        assert(buf@ =~= start + response_bytes(m));
    }

    /// The encoding of the response.
    pub fn encode_to_vec(&self) -> (bytes: Vec<u8>)
        ensures
            bytes@ == response_bytes(self@),
    {
        let mut bytes = Vec::new();
        self.encode(&mut bytes);
        bytes
    }

    /// Appends the response to `buf` as a length-delimited frame.
    pub fn encode_length_delimited(&self, buf: &mut Vec<u8>)
        ensures
            final(buf)@ == old(buf)@ + frame(response_bytes(self@)),
    {
        let body = self.encode_to_vec();
        encode_varint(body.len() as u64, buf);
        buf.extend_from_slice(body.as_slice());
    }

    /// Decodes the response that all of `buf` encodes.
    pub fn decode(buf: &[u8]) -> (res: Result<ImageResponse, DecodeFailure>)
        ensures
            match response_decode(buf@) {
                Some(m) => res matches Ok(r) && r@ == m,
                None => res matches Err(DecodeFailure::Wire(_)),
            },
    {
        let mut msg = ImageResponse::default();
        let mut rest = buf;
        while rest.len() > 0
            invariant
                response_merge(msg@, rest@) == response_decode(buf@),
            decreases rest@.len(),
        {
            let ghost before = rest@;
            let ghost acc = msg@;
            let (tag, wire, after_key) = match decode_key(rest) {
                Ok(key) => key,
                Err(e) => return Err(DecodeFailure::Wire(e)),
            };
            proof {
                lemma_key_decode_len(before);
            }
            let ghost body = after_key@;
            let step = if tag == 1 {
                merge_int32_field(wire, &mut msg.response_code, after_key)
            } else if tag == 2 {
                merge_int32_field(wire, &mut msg.image_type, after_key)
            } else if tag == 3 {
                merge_uint32_field(wire, &mut msg.content_length, after_key)
            } else if tag == 4 {
                merge_bytes_field(wire, &mut msg.data, after_key)
            } else if tag == 5 {
                merge_uint64_field(wire, &mut msg.request_id, after_key)
            } else {
                skip_field(wire, tag, after_key)
            };
            match step {
                Ok(after) => {
                    proof {
                        lemma_varint_from_facts(body, 0);
                        let (next, k) = response_field(acc, tag, wire, body).unwrap();
                        assert(msg@ == next);
                        assert(after@ =~= body.subrange(k as int, body.len() as int));
                    }
                    rest = after;
                },
                Err(e) => return Err(DecodeFailure::Wire(e)),
            }
        }
        Ok(msg)
    }

    /// Decodes the response in the length-delimited frame at the front of
    /// `buf`; bytes after the frame are ignored.
    pub fn decode_length_delimited(buf: &[u8]) -> (res: Result<ImageResponse, DecodeFailure>)
        ensures
            match response_frame_decode(buf@) {
                Some(m) => res matches Ok(r) && r@ == m,
                None => res is Err,
            },
            varint_decode(buf@) is None ==> res matches Err(DecodeFailure::Wire(_)),
            varint_decode(buf@) matches Some((len, n)) && n + len > buf@.len() ==> res matches Err(
                DecodeFailure::Truncated,
            ),
            res matches Err(DecodeFailure::Truncated) ==> varint_decode(buf@) matches Some((len, n))
                && n + len > buf@.len(),
    {
        let (len, after) = match decode_varint(buf) {
            Ok(prefix) => prefix,
            Err(e) => return Err(DecodeFailure::Wire(e)),
        };
        if len > after.len() as u64 {
            return Err(DecodeFailure::Truncated);
        }
        let body = vstd::slice::slice_subrange(after, 0, len as usize);
        proof {
            lemma_varint_from_facts(buf@, 0);
            assert(body@ =~= length_delimited_decode(buf@).unwrap().0);
        }
        let message = match ImageResponse::decode(body) {
            Ok(message) => message,
            Err(e) => return Err(e),
        };
        match check_frame_fields(buf) {
            Ok(()) => Ok(message),
            Err(e) => Err(DecodeFailure::Wire(e)),
        }
    }
}

} // verus!
