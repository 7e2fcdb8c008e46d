use ipc_poc_backend::codec::DecodeFailure;
use ipc_poc_backend::schema::{ImageRequest, ImageResponse, ImageType, ResponseCode};

fn request(path: &str, request_id: u64) -> ImageRequest {
    ImageRequest { path: path.to_string(), request_id }
}

#[test]
fn varints_are_little_endian_seven_bit_groups() {
    let bytes = request("", 300).encode_to_vec();
    assert_eq!(bytes, vec![0x10, 0xAC, 0x02]);
    let bytes = request("", u64::MAX).encode_to_vec();
    assert_eq!(bytes.len(), 11);
    assert_eq!(ImageRequest::decode(&bytes).unwrap().request_id, u64::MAX);
}

#[test]
fn varints_cut_short_or_overlong_are_rejected() {
    assert!(matches!(ImageRequest::decode(&[0x10, 0x80]), Err(DecodeFailure::Wire(_))));
    let overlong = [0x10, 0xFF, 0xFF, 0xFF, 0xFF, 0xFF, 0xFF, 0xFF, 0xFF, 0xFF, 0x02];
    assert!(matches!(ImageRequest::decode(&overlong), Err(DecodeFailure::Wire(_))));
    let non_canonical = [0x10, 0x81, 0x00];
    assert_eq!(ImageRequest::decode(&non_canonical).unwrap().request_id, 1);
}

#[test]
fn keys_with_field_number_zero_or_unknown_wire_type_are_rejected() {
    assert!(matches!(ImageRequest::decode(&[0x00, 0x01]), Err(DecodeFailure::Wire(_))));
    assert!(matches!(ImageRequest::decode(&[0x0E, 0x01]), Err(DecodeFailure::Wire(_))));
}

#[test]
fn request_encoding_matches_protobuf_layout() {
    let bytes = request("a.jpg", 7).encode_to_vec();
    assert_eq!(bytes, vec![0x0A, 5, b'a', b'.', b'j', b'p', b'g', 0x10, 7]);
}

#[test]
fn request_encoding_matches_prost_field_encoders() {
    let req = request("C:\\images\\\u{e9}t\u{e9}.jpg", 123456789);
    let mut expected = Vec::new();
    prost::encoding::string::encode(1, &req.path, &mut expected);
    prost::encoding::uint64::encode(2, &req.request_id, &mut expected);
    assert_eq!(req.encode_to_vec(), expected);
}

#[test]
fn default_request_encodes_to_nothing() {
    assert!(ImageRequest::default().encode_to_vec().is_empty());
    let decoded = ImageRequest::decode(&[]).unwrap();
    assert_eq!(decoded.path, "");
    assert_eq!(decoded.request_id, 0);
}

#[test]
fn request_roundtrip() {
    let req = request("/tmp/photo 1.jpg", 42);
    let decoded = ImageRequest::decode(&req.encode_to_vec()).unwrap();
    assert_eq!(decoded.path, "/tmp/photo 1.jpg");
    assert_eq!(decoded.request_id, 42);
}

#[test]
fn request_decoding_skips_unknown_fields_and_keeps_the_last_value() {
    let mut bytes = request("first", 1).encode_to_vec();
    prost::encoding::uint32::encode(9, &77, &mut bytes);
    prost::encoding::string::encode(1, &"second".to_string(), &mut bytes);
    let decoded = ImageRequest::decode(&bytes).unwrap();
    assert_eq!(decoded.path, "second");
    assert_eq!(decoded.request_id, 1);
}

#[test]
fn request_decoding_rejects_wrong_wire_type() {
    let mut bytes = Vec::new();
    prost::encoding::uint64::encode(1, &5, &mut bytes);
    assert!(matches!(ImageRequest::decode(&bytes), Err(DecodeFailure::Wire(_))));
}

#[test]
fn request_decoding_rejects_text_that_is_not_utf8() {
    let bytes = [0x0A, 2, 0xC3, 0x28];
    assert!(matches!(ImageRequest::decode(&bytes), Err(DecodeFailure::Wire(_))));
}

#[test]
fn request_frame_roundtrip_ignores_trailing_bytes() {
    let req = request("img.jpg", 9);
    let mut framed = Vec::new();
    req.encode_length_delimited(&mut framed);
    assert_eq!(framed[0] as usize, framed.len() - 1);
    framed.extend_from_slice(&[1, 2, 3]);
    let decoded = ImageRequest::decode_length_delimited(&framed).unwrap();
    assert_eq!(decoded.path, "img.jpg");
    assert_eq!(decoded.request_id, 9);
}

#[test]
fn request_frame_cut_short_is_truncated() {
    let mut framed = Vec::new();
    request("img.jpg", 9).encode_length_delimited(&mut framed);
    for cut in 1..framed.len() {
        assert!(matches!(
            ImageRequest::decode_length_delimited(&framed[..cut]),
            Err(DecodeFailure::Truncated)
        ));
    }
    assert!(matches!(ImageRequest::decode_length_delimited(&[]), Err(DecodeFailure::Wire(_))));
}

#[test]
fn response_roundtrip_with_all_fields() {
    let resp = ImageResponse {
        response_code: -3,
        image_type: ImageType::Png.into(),
        content_length: 4,
        data: vec![0xFF, 0xD8, 0xFF, 0xE0],
        request_id: u64::MAX,
    };
    let bytes = resp.encode_to_vec();
    let decoded = ImageResponse::decode(&bytes).unwrap();
    assert_eq!(decoded.response_code, -3);
    assert_eq!(decoded.image_type, 1);
    assert_eq!(decoded.content_length, 4);
    assert_eq!(decoded.data, vec![0xFF, 0xD8, 0xFF, 0xE0]);
    assert_eq!(decoded.request_id, u64::MAX);
}

#[test]
fn response_encoding_matches_prost_field_encoders() {
    let resp = ImageResponse {
        response_code: -1,
        image_type: 1,
        content_length: 3,
        data: vec![1, 2, 3],
        request_id: 5,
    };
    let mut expected = Vec::new();
    prost::encoding::int32::encode(1, &resp.response_code, &mut expected);
    prost::encoding::int32::encode(2, &resp.image_type, &mut expected);
    prost::encoding::uint32::encode(3, &resp.content_length, &mut expected);
    prost::encoding::bytes::encode(4, &resp.data, &mut expected);
    prost::encoding::uint64::encode(5, &resp.request_id, &mut expected);
    assert_eq!(resp.encode_to_vec(), expected);
    assert_eq!(expected.len(), 11 + 2 + 2 + 5 + 2);
}

#[test]
fn default_response_fields_are_left_out() {
    let resp = ImageResponse::default();
    assert!(resp.encode_to_vec().is_empty());
    let only_data = ImageResponse { data: vec![9], ..ImageResponse::default() };
    assert_eq!(only_data.encode_to_vec(), vec![0x22, 1, 9]);
}

#[test]
fn response_frame_roundtrip() {
    let resp = ImageResponse { data: vec![7; 300], content_length: 300, request_id: 2, ..ImageResponse::default() };
    let mut framed = Vec::new();
    resp.encode_length_delimited(&mut framed);
    let decoded = ImageResponse::decode_length_delimited(&framed).unwrap();
    assert_eq!(decoded.data.len(), 300);
    assert_eq!(decoded.content_length, 300);
    assert_eq!(decoded.request_id, 2);
}

#[test]
fn enumeration_numbers() {
    assert_eq!(i32::from(ResponseCode::Success), 0);
    assert_eq!(i32::from(ImageType::Jpeg), 0);
    assert_eq!(i32::from(ImageType::Png), 1);
}

fn nested_groups(depth: usize) -> Vec<u8> {
    let mut body = vec![59u8; depth];
    body.extend(std::iter::repeat(60u8).take(depth));
    body
}

fn framed(body: &[u8]) -> Vec<u8> {
    let mut out = Vec::new();
    prost::encoding::encode_varint(body.len() as u64, &mut out);
    out.extend_from_slice(body);
    out
}

#[test]
fn framed_decoding_allows_one_level_of_nesting_less_than_bare_decoding() {
    let body = nested_groups(100);
    assert!(ImageRequest::decode(&body).is_ok());
    assert!(ImageResponse::decode(&body).is_ok());
    let frame = framed(&body);
    assert!(matches!(ImageRequest::decode_length_delimited(&frame), Err(DecodeFailure::Wire(_))));
    assert!(matches!(ImageResponse::decode_length_delimited(&frame), Err(DecodeFailure::Wire(_))));

    let body = nested_groups(99);
    assert!(ImageResponse::decode(&body).is_ok());
    let frame = framed(&body);
    let decoded = ImageRequest::decode_length_delimited(&frame).unwrap();
    assert_eq!(decoded.path, "");
    assert!(ImageResponse::decode_length_delimited(&frame).is_ok());
}

#[test]
fn bare_decoding_stops_past_one_hundred_levels() {
    assert!(matches!(ImageRequest::decode(&nested_groups(101)), Err(DecodeFailure::Wire(_))));
}

#[test]
fn unknown_groups_are_passed_over_field_by_field() {
    // group 7 holding a varint field 8 and a delimited field 9, then path "a"
    let bytes = [0x3B, 0x40, 0x01, 0x4A, 0x02, 0x3C, 0x3C, 0x3C, 0x0A, 0x01, 0x61];
    let decoded = ImageRequest::decode(&bytes).unwrap();
    assert_eq!(decoded.path, "a");
    assert_eq!(decoded.request_id, 0);
    // a group closed by the end key of another field number
    assert!(matches!(ImageRequest::decode(&[0x3B, 0x44, 0x0A, 0x01, 0x61]), Err(DecodeFailure::Wire(_))));
    // a group that never closes
    assert!(matches!(ImageRequest::decode(&[0x3B, 0x40, 0x01]), Err(DecodeFailure::Wire(_))));
}
