//! One client connection on the image pipe.
//!
//! The client sends length-delimited `ImageRequest` frames; the server reads
//! whatever bytes arrive into a buffer and tries to decode a frame from it.
//! Until a whole frame is there it waits for more. Once it decodes a request
//! it serves it, answers with a length-delimited `ImageResponse`, and starts
//! over with an empty buffer.

use crate::codec::{
    frame, law_request_frame_prefix_incomplete, law_request_frame_roundtrip,
    law_response_frame_roundtrip, request_bytes, request_frame_decode, response_bytes,
    response_frame_decode,
};
use crate::schema::{ImageRequest, ImageResponse, RequestFields};
use crate::service::image_fields;
use vstd::prelude::*;

verus! {

/// What the server does next on a connection.
#[derive(Debug)]
pub enum ConnectionAction {
    /// The client closed the connection.
    Close,
    /// No whole request has arrived yet: read more bytes.
    ReadMore,
    /// A request has arrived: read its image and answer it.
    Serve(ImageRequest),
}

/// The state of one connection: the bytes received and not yet served.
pub struct Connection {
    buffer: Vec<u8>,
}

impl Connection {
    /// The bytes received on the connection and not yet served.
    pub closed spec fn pending(&self) -> Seq<u8> {
        self.buffer@
    }

    /// A connection on which nothing has been received.
    pub fn new() -> (connection: Connection)
        ensures
            connection.pending() == Seq::<u8>::empty(),
    {
        Connection { buffer: Vec::with_capacity(2048) }
    }

    /// Takes the bytes of one read from the client. An empty read means the
    /// client has closed the connection. Otherwise the bytes join those
    /// pending, and the request in the frame at their front is served if the
    /// frame is whole and decodes.
    pub fn receive(&mut self, chunk: &[u8]) -> (action: ConnectionAction)
        ensures
            chunk@.len() == 0 ==> action is Close && final(self).pending() == old(self).pending(),
            chunk@.len() > 0 ==> final(self).pending() == old(self).pending() + chunk@,
            chunk@.len() > 0 ==> match request_frame_decode(old(self).pending() + chunk@) {
                Some(m) => action matches ConnectionAction::Serve(request) && request@ == m,
                None => action is ReadMore,
            },
    {
        if chunk.len() == 0 {
            return ConnectionAction::Close;
        }
        self.buffer.extend_from_slice(chunk);
        assert(self.buffer@ =~= old(self).pending() + chunk@);
        match ImageRequest::decode_length_delimited(self.buffer.as_slice()) {
            Ok(request) => ConnectionAction::Serve(request),
            Err(_) => ConnectionAction::ReadMore,
        }
    }

    /// Answers the request `request_id`, whose image holds `image_bytes`:
    /// returns the response frame to write and forgets the pending bytes.
    pub fn respond(&mut self, request_id: u64, image_bytes: Vec<u8>) -> (reply: Vec<u8>)
        ensures
            reply@ == frame(response_bytes(image_fields(request_id, image_bytes@))),
            final(self).pending() == Seq::<u8>::empty(),
    {
        let response = ImageResponse::image(request_id, image_bytes);
        let mut reply = Vec::new();
        response.encode_length_delimited(&mut reply);
        self.buffer.clear();
        reply
    }
}

/// A client that sends the frame of request `m`, in as many pieces as it
/// likes, is answered `ReadMore` while the frame is incomplete and is served
/// `m` once the whole frame has arrived, whatever arrived after it.
pub proof fn law_request_served_when_whole(m: RequestFields, received: Seq<u8>)
    requires
        request_bytes(m).len() <= usize::MAX,
    ensures
        received.len() < frame(request_bytes(m)).len() && received == frame(request_bytes(m)).take(
            received.len() as int,
        ) ==> request_frame_decode(received) is None,
        received.len() >= frame(request_bytes(m)).len() && received.take(
            frame(request_bytes(m)).len() as int,
        ) == frame(request_bytes(m)) ==> request_frame_decode(received) == Some(m),
{
    let whole = frame(request_bytes(m));
    if received.len() < whole.len() && received == whole.take(received.len() as int) {
        law_request_frame_prefix_incomplete(m, received.len());
    }
    if received.len() >= whole.len() && received.take(whole.len() as int) == whole {
        let rest = received.subrange(whole.len() as int, received.len() as int);
        assert(received =~= whole + rest);
        law_request_frame_roundtrip(m, rest);
    }
}

/// The reply to a request reads back, at the client, as a successful JPEG
/// response for that request carrying the image bytes and their count.
pub proof fn law_reply_carries_image(request_id: u64, image: Seq<u8>, rest: Seq<u8>)
    requires
        response_bytes(image_fields(request_id, image)).len() <= usize::MAX,
    ensures
        response_frame_decode(frame(response_bytes(image_fields(request_id, image))) + rest)
            == Some(image_fields(request_id, image)),
        image_fields(request_id, image).data == image,
        image_fields(request_id, image).request_id == request_id,
        image_fields(request_id, image).content_length == image.len() as u32,
{
    law_response_frame_roundtrip(image_fields(request_id, image), rest);
}

} // verus!
