use ipc_poc_backend::connection::{Connection, ConnectionAction};
use ipc_poc_backend::schema::{ImageRequest, ImageResponse};
use ipc_poc_backend::service::{get_image_service_server, requested_path, ImageServer};

fn framed_request(path: &str, request_id: u64) -> Vec<u8> {
    let mut bytes = Vec::new();
    ImageRequest { path: path.to_string(), request_id }.encode_length_delimited(&mut bytes);
    bytes
}

#[test]
fn empty_read_closes_the_connection() {
    let mut connection = Connection::new();
    assert!(matches!(connection.receive(&[]), ConnectionAction::Close));
}

#[test]
fn whole_frame_in_one_read_is_served() {
    let mut connection = Connection::new();
    match connection.receive(&framed_request("photo.jpg", 11)) {
        ConnectionAction::Serve(request) => {
            assert_eq!(request.path, "photo.jpg");
            assert_eq!(request.request_id, 11);
        }
        other => panic!("unexpected action {:?}", other),
    }
}

#[test]
fn frame_in_pieces_waits_until_whole() {
    let frame = framed_request("dir/picture.jpg", 300);
    let mut connection = Connection::new();
    for byte in &frame[..frame.len() - 1] {
        assert!(matches!(connection.receive(&[*byte]), ConnectionAction::ReadMore));
    }
    match connection.receive(&frame[frame.len() - 1..]) {
        ConnectionAction::Serve(request) => {
            assert_eq!(request.path, "dir/picture.jpg");
            assert_eq!(request.request_id, 300);
        }
        other => panic!("unexpected action {:?}", other),
    }
}

#[test]
fn reply_is_a_framed_jpeg_response_and_clears_the_buffer() {
    let mut connection = Connection::new();
    assert!(matches!(connection.receive(&framed_request("a.jpg", 5)), ConnectionAction::Serve(_)));
    let reply = connection.respond(5, vec![0xFF, 0xD8, 0xFF]);
    let response = ImageResponse::decode_length_delimited(&reply).unwrap();
    assert_eq!(response.request_id, 5);
    assert_eq!(response.response_code, 0);
    assert_eq!(response.image_type, 0);
    assert_eq!(response.content_length, 3);
    assert_eq!(response.data, vec![0xFF, 0xD8, 0xFF]);
    match connection.receive(&framed_request("b.jpg", 6)) {
        ConnectionAction::Serve(request) => assert_eq!(request.path, "b.jpg"),
        other => panic!("unexpected action {:?}", other),
    }
}

#[test]
fn garbage_keeps_waiting() {
    let mut connection = Connection::new();
    assert!(matches!(connection.receive(&[0x05, 0x0A]), ConnectionAction::ReadMore));
    assert!(matches!(connection.receive(&[0xFF, 0xFF]), ConnectionAction::ReadMore));
}

#[test]
fn trim_removes_unicode_white_space_at_both_ends() {
    assert_eq!(requested_path("  C:\\img.jpg\r\n"), "C:\\img.jpg");
    assert_eq!(requested_path("\u{3000}a b\u{2028}"), "a b");
    assert_eq!(requested_path(" \t "), "");
}

#[test]
fn image_server_reads_the_trimmed_path_and_answers_with_the_image() {
    let server = ImageServer::default();
    let request = ImageRequest { path: "  /tmp/x.jpg \n".to_string(), request_id: 4 };
    assert_eq!(server.image_path(&request), "/tmp/x.jpg");
    let response = server.get_image(vec![1, 2, 3, 4, 5]);
    assert_eq!(response.content_length, 5);
    assert_eq!(response.data, vec![1, 2, 3, 4, 5]);
    assert_eq!(response.request_id, 0);
    assert_eq!(response.response_code, 0);
    assert_eq!(response.image_type, 0);
}

#[test]
fn response_length_is_the_low_32_bits_of_the_byte_count() {
    let response = ImageResponse::image(1, vec![0; 70000]);
    assert_eq!(response.content_length, 70000);
}

#[test]
fn service_server_wraps_a_default_image_server() {
    let server = get_image_service_server();
    assert!(server.max_decoding_message_size.is_none());
    assert!(server.max_encoding_message_size.is_none());
    let _inner: &ImageServer = &server.inner;
}

#[test]
fn white_space_around_a_path_reads_the_same_file() {
    let server = ImageServer::default();
    let plain = ImageRequest { path: "photos/a b.jpg".to_string(), request_id: 9 };
    let padded = ImageRequest { path: " \t\u{3000}photos/a b.jpg\r\n ".to_string(), request_id: 9 };
    assert_eq!(server.image_path(&padded), server.image_path(&plain));
    assert_eq!(server.image_path(&padded), "photos/a b.jpg");
    assert_eq!(requested_path("\n\nphotos/a b.jpg"), requested_path("photos/a b.jpg\u{2029}"));
}
