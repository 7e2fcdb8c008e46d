//! The image service: what a request asks for and what is answered.
//!
//! Reading the image from storage is the caller's part; this module decides
//! which path is read and builds the response from the bytes read.

use crate::schema::{
    image_type_number, response_code_number, ImageRequest, ImageResponse, ImageType, ResponseCode,
    ResponseFields,
};
use vstd::prelude::*;

verus! {

/// Unicode's White_Space property, which `str::trim` removes.
pub open spec fn is_white_space(c: char) -> bool {
    ||| '\u{9}' <= c <= '\u{d}'
    ||| c == ' '
    ||| c == '\u{85}'
    ||| c == '\u{a0}'
    ||| c == '\u{1680}'
    ||| '\u{2000}' <= c <= '\u{200a}'
    ||| c == '\u{2028}'
    ||| c == '\u{2029}'
    ||| c == '\u{202f}'
    ||| c == '\u{205f}'
    ||| c == '\u{3000}'
}

/// `s` without its leading white space.
pub open spec fn trim_start(s: Seq<char>) -> Seq<char>
    decreases s.len(),
{
    if s.len() > 0 && is_white_space(s[0]) {
        trim_start(s.drop_first())
    } else {
        s
    }
}

/// `s` without its trailing white space.
pub open spec fn trim_end(s: Seq<char>) -> Seq<char>
    decreases s.len(),
{
    if s.len() > 0 && is_white_space(s.last()) {
        trim_end(s.drop_last())
    } else {
        s
    }
}

/// `s` without leading and trailing white space.
pub open spec fn trimmed(s: Seq<char>) -> Seq<char> {
    trim_end(trim_start(s))
}

/// Whether every character of `s` is white space.
pub open spec fn all_white_space(s: Seq<char>) -> bool {
    forall|i: int| 0 <= i < s.len() ==> #[trigger] is_white_space(s[i])
}

/// Leading white space is dropped whole.
proof fn lemma_trim_start_after_white_space(w: Seq<char>, x: Seq<char>)
    requires
        all_white_space(w),
    ensures
        trim_start(w + x) == trim_start(x),
    decreases w.len(),
{
    if w.len() == 0 {
        assert(w + x =~= x);
    } else {
        assert((w + x)[0] == w[0]);
        assert((w + x).drop_first() =~= w.drop_first() + x);
        assert(all_white_space(w.drop_first())) by {
            assert forall|i: int| 0 <= i < w.drop_first().len() implies #[trigger] is_white_space(
                w.drop_first()[i],
            ) by {
                assert(w.drop_first()[i] == w[i + 1]);
            }
        }
        lemma_trim_start_after_white_space(w.drop_first(), x);
    }
}

/// Trailing white space is dropped whole.
proof fn lemma_trim_end_before_white_space(y: Seq<char>, w: Seq<char>)
    requires
        all_white_space(w),
    ensures
        trim_end(y + w) == trim_end(y),
    decreases w.len(),
{
    if w.len() == 0 {
        assert(y + w =~= y);
    } else {
        assert((y + w).last() == w.last());
        assert(is_white_space(w[w.len() - 1]));
        assert((y + w).drop_last() =~= y + w.drop_last());
        assert(all_white_space(w.drop_last())) by {
            assert forall|i: int| 0 <= i < w.drop_last().len() implies #[trigger] is_white_space(
                w.drop_last()[i],
            ) by {
                assert(w.drop_last()[i] == w[i]);
            }
        }
        lemma_trim_end_before_white_space(y, w.drop_last());
    }
}

/// When `p` is all white space, so is what is left of it, nothing;
/// otherwise dropping its leading white space keeps what follows `p`.
proof fn lemma_trim_start_append(p: Seq<char>, w: Seq<char>)
    ensures
        trim_start(p).len() == 0 ==> all_white_space(p),
        trim_start(p).len() > 0 ==> trim_start(p + w) == trim_start(p) + w,
    decreases p.len(),
{
    if p.len() > 0 {
        assert((p + w)[0] == p[0]);
        if is_white_space(p[0]) {
            lemma_trim_start_append(p.drop_first(), w);
            assert((p + w).drop_first() =~= p.drop_first() + w);
            if trim_start(p).len() == 0 {
                assert forall|i: int| 0 <= i < p.len() implies #[trigger] is_white_space(p[i]) by {
                    if i > 0 {
                        assert(p[i] == p.drop_first()[i - 1]);
                    }
                }
            }
        }
    }
}

/// White space around a path does not change the trimmed path: padding
/// `p` with white space on either side trims to what `p` trims to.
pub proof fn law_white_space_padding_ignored(w1: Seq<char>, p: Seq<char>, w2: Seq<char>)
    requires
        all_white_space(w1),
        all_white_space(w2),
    ensures
        trimmed(w1 + p + w2) == trimmed(p),
{
    assert(w1 + p + w2 =~= w1 + (p + w2));
    lemma_trim_start_after_white_space(w1, p + w2);
    lemma_trim_start_append(p, w2);
    if trim_start(p).len() > 0 {
        lemma_trim_end_before_white_space(trim_start(p), w2);
    } else {
        lemma_trim_start_after_white_space(p, w2);
        lemma_trim_start_after_white_space(w2, Seq::empty());
        assert(w2 + Seq::<char>::empty() =~= w2);
        assert(trim_start(p + w2) == trim_start(Seq::<char>::empty()));
    }
}

/// Two requests whose paths differ only by surrounding white space read
/// the same image.
pub proof fn law_image_path_ignores_padding(
    server: ImageServer,
    padded: ImageRequest,
    plain: ImageRequest,
    w1: Seq<char>,
    w2: Seq<char>,
)
    requires
        all_white_space(w1),
        all_white_space(w2),
        padded.path@ == w1 + plain.path@ + w2,
    ensures
        trimmed(padded.path@) == trimmed(plain.path@),
{
    law_white_space_padding_ignored(w1, plain.path@, w2);
}

/// std's `str::trim`: the part of `s` between its leading and its trailing
/// white space.
#[verifier::external_body]
pub(crate) fn trim(s: &str) -> (t: &str)
    ensures
        t@ == trimmed(s@),
{
    s.trim()
}

/// The path named by a request line: the line without surrounding white
/// space.
pub fn requested_path(line: &str) -> (path: String)
    ensures
        path@ == trimmed(line@),
{
    String::from_str(trim(line))
}

/// The response that carries the bytes of a JPEG image for the request
/// `request_id`; the length field holds the low 32 bits of the byte count.
pub open spec fn image_fields(request_id: u64, image: Seq<u8>) -> ResponseFields {
    ResponseFields {
        response_code: response_code_number(ResponseCode::Success),
        image_type: image_type_number(ImageType::Jpeg),
        content_length: image.len() as u32,
        data: image,
        request_id: request_id,
    }
}

/// Every image response reports success and a JPEG image, whatever the
/// request id and however long the image; it carries the image bytes as
/// they are, the request id it answers, and the byte count modulo 2^32.
pub proof fn law_image_response_is_successful_jpeg(request_id: u64, image: Seq<u8>)
    requires
        image.len() <= usize::MAX,
    ensures
        image_fields(request_id, image).response_code == response_code_number(ResponseCode::Success),
        image_fields(request_id, image).image_type == image_type_number(ImageType::Jpeg),
        image_fields(request_id, image).data == image,
        image_fields(request_id, image).request_id == request_id,
        image_fields(request_id, image).content_length as int == image.len() % 0x1_0000_0000,
{
    let x: u64 = image.len() as u64;
    assert((x as u32) as u64 == x % 0x1_0000_0000) by (bit_vector);
}

impl ImageResponse {
    /// A successful response carrying the JPEG image `image_bytes` for the
    /// request `request_id`.
    pub fn image(request_id: u64, image_bytes: Vec<u8>) -> (response: ImageResponse)
        ensures
            response@ == image_fields(request_id, image_bytes@),
    {
        let content_length = image_bytes.len() as u32;
        ImageResponse {
            response_code: ResponseCode::Success.into(),
            image_type: ImageType::Jpeg.into(),
            content_length,
            data: image_bytes,
            request_id,
        }
    }
}

/// The image service.
#[derive(Debug)]
pub struct ImageServer {}

impl Default for ImageServer {
    fn default() -> (server: ImageServer)
        ensures
            server == (ImageServer {}),
    {
        ImageServer {}
    }
}

impl ImageServer {
    /// Where the image that `request` asks for is read from: its path
    /// without surrounding white space.
    pub fn image_path(&self, request: &ImageRequest) -> (path: String)
        ensures
            path@ == trimmed(request.path@),
    {
        requested_path(request.path.as_str())
    }

    /// The answer to a request whose image holds `image_bytes`; the request
    /// id is left at its default.
    pub fn get_image(&self, image_bytes: Vec<u8>) -> (response: ImageResponse)
        ensures
            response@ == image_fields(0, image_bytes@),
    {
        ImageResponse::image(0, image_bytes)
    }
}

/// A model of the gRPC server that wraps an image service implementation
/// `T`: it records the service and the limits on message sizes that the
/// transport applies (none by default). It holds the service by value and
/// carries no compression settings; it is no tonic service, so serving gRPC
/// still needs the server that tonic generates from the schema.
pub struct ImageServiceServer<T> {
    pub inner: T,
    pub max_decoding_message_size: Option<usize>,
    pub max_encoding_message_size: Option<usize>,
}

impl<T> ImageServiceServer<T> {
    /// Serves `inner` with no limits on message sizes.
    pub fn new(inner: T) -> (server: ImageServiceServer<T>)
        ensures
            server.inner == inner,
            server.max_decoding_message_size is None,
            server.max_encoding_message_size is None,
    {
        ImageServiceServer { inner, max_decoding_message_size: None, max_encoding_message_size: None }
    }
}

/// The gRPC image service, serving a default `ImageServer`.
pub fn get_image_service_server() -> (server: ImageServiceServer<ImageServer>)
    ensures
        server.inner == (ImageServer {}),
        server.max_decoding_message_size is None,
        server.max_encoding_message_size is None,
{
    let image_server = ImageServer::default();
    ImageServiceServer::new(image_server)
}

} // verus!
