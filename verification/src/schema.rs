//! The messages of the image protocol.
//!
//! `ImageRequest` asks for the image stored at a path; `ImageResponse`
//! carries its bytes back. Enumeration fields hold the `i32` number of the
//! variant, as protobuf enumerations do.

use vstd::prelude::*;

verus! {

/// Outcome of a request.
#[derive(Clone, Copy, PartialEq, Eq, Structural, Debug)]
pub enum ResponseCode {
    Success,
}

/// Encoding of the returned image.
#[derive(Clone, Copy, PartialEq, Eq, Structural, Debug)]
pub enum ImageType {
    Jpeg,
    Png,
}

/// The protobuf number of a response code.
pub open spec fn response_code_number(code: ResponseCode) -> i32 {
    match code {
        ResponseCode::Success => 0,
    }
}

/// The protobuf number of an image type.
pub open spec fn image_type_number(kind: ImageType) -> i32 {
    match kind {
        ImageType::Jpeg => 0,
        ImageType::Png => 1,
    }
}

impl vstd::std_specs::convert::FromSpecImpl<ResponseCode> for i32 {
    open spec fn obeys_from_spec() -> bool {
        true
    }

    open spec fn from_spec(code: ResponseCode) -> i32 {
        response_code_number(code)
    }
}

impl From<ResponseCode> for i32 {
    fn from(code: ResponseCode) -> (number: i32) {
        match code {
            ResponseCode::Success => 0,
        }
    }
}

impl vstd::std_specs::convert::FromSpecImpl<ImageType> for i32 {
    open spec fn obeys_from_spec() -> bool {
        true
    }

    open spec fn from_spec(kind: ImageType) -> i32 {
        image_type_number(kind)
    }
}

impl From<ImageType> for i32 {
    fn from(kind: ImageType) -> (number: i32) {
        match kind {
            ImageType::Jpeg => 0,
            ImageType::Png => 1,
        }
    }
}

/// A request for the image stored at `path`.
#[derive(Debug)]
pub struct ImageRequest {
    /// Field 1: where the image is stored.
    pub path: String,
    /// Field 2: chosen by the client, echoed in the response.
    pub request_id: u64,
}

/// The content of an `ImageRequest`.
pub struct RequestFields {
    pub path: Seq<char>,
    pub request_id: u64,
}

impl View for ImageRequest {
    type V = RequestFields;

    open spec fn view(&self) -> RequestFields {
        RequestFields { path: self.path@, request_id: self.request_id }
    }
}

/// The request in which every field holds its default.
pub open spec fn empty_request() -> RequestFields {
    RequestFields { path: Seq::empty(), request_id: 0 }
}

impl Default for ImageRequest {
    fn default() -> (request: ImageRequest)
        ensures
            request@ == empty_request(),
    {
        ImageRequest { path: String::new(), request_id: 0 }
    }
}

/// The answer to an `ImageRequest`.
#[derive(Debug)]
pub struct ImageResponse {
    /// Field 1: a `ResponseCode` number.
    pub response_code: i32,
    /// Field 2: an `ImageType` number.
    pub image_type: i32,
    /// Field 3: the number of image bytes, as 32 bits.
    pub content_length: u32,
    /// Field 4: the image bytes.
    pub data: Vec<u8>,
    /// Field 5: the `request_id` of the request answered.
    pub request_id: u64,
}

/// The content of an `ImageResponse`.
pub struct ResponseFields {
    pub response_code: i32,
    pub image_type: i32,
    pub content_length: u32,
    pub data: Seq<u8>,
    pub request_id: u64,
}

impl View for ImageResponse {
    type V = ResponseFields;

    open spec fn view(&self) -> ResponseFields {
        ResponseFields {
            response_code: self.response_code,
            image_type: self.image_type,
            content_length: self.content_length,
            data: self.data@,
            request_id: self.request_id,
        }
    }
}

/// The response in which every field holds its default.
pub open spec fn empty_response() -> ResponseFields {
    ResponseFields {
        response_code: 0,
        image_type: 0,
        content_length: 0,
        data: Seq::empty(),
        request_id: 0,
    }
}

impl Default for ImageResponse {
    fn default() -> (response: ImageResponse)
        ensures
            response@ == empty_response(),
    {
        ImageResponse {
            response_code: 0,
            image_type: 0,
            content_length: 0,
            data: Vec::new(),
            request_id: 0,
        }
    }
}

} // verus!
