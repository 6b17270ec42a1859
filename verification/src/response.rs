//! What goes back to the client: a status, a content type and a body.

use vstd::prelude::*;
use vstd::string::*;

verus! {

/// The three statuses that the service answers with.
#[derive(Debug, Clone, Copy, PartialEq, Eq, Structural)]
pub enum Status {
    Success,
    BadRequest,
    InternalServerError,
}

impl Status {
    /// The status code of HTTP.
    pub open spec fn spec_code(self) -> u16 {
        match self {
            Status::Success => 200,
            Status::BadRequest => 400,
            Status::InternalServerError => 500,
        }
    }

    /// The status code of HTTP.
    pub fn code(&self) -> (code: u16)
        ensures
            code == self.spec_code(),
    {
        match self {
            Status::Success => 200,
            Status::BadRequest => 400,
            Status::InternalServerError => 500,
        }
    }
}

/// The ways in which a request can fail.
#[derive(Debug, Clone, Copy, PartialEq, Eq, Structural)]
pub enum ErrorKind {
    /// The client's fault: a number is missing, is no number or is out of
    /// range.
    BadRequest,
    /// The pixel transform did not take the parameters or the image.
    TransformFailure,
    /// The codec did not produce an image.
    EncodeFailure,
}

impl ErrorKind {
    /// The status that each kind of failure is answered with.
    pub open spec fn spec_status(self) -> Status {
        match self {
            ErrorKind::BadRequest => Status::BadRequest,
            ErrorKind::TransformFailure => Status::InternalServerError,
            ErrorKind::EncodeFailure => Status::InternalServerError,
        }
    }

    /// The status that each kind of failure is answered with.
    pub fn status(&self) -> (status: Status)
        ensures
            status == self.spec_status(),
    {
        match self {
            ErrorKind::BadRequest => Status::BadRequest,
            ErrorKind::TransformFailure => Status::InternalServerError,
            ErrorKind::EncodeFailure => Status::InternalServerError,
        }
    }
}

/// The two kinds of body that the service sends.
#[derive(Debug, Clone, Copy, PartialEq, Eq, Structural)]
pub enum ContentType {
    Jpeg,
    PlainText,
}

impl ContentType {
    /// The value of the `Content-Type` header.
    pub open spec fn spec_header(self) -> Seq<char> {
        match self {
            ContentType::Jpeg => "image/jpeg"@,
            ContentType::PlainText => "text/plain; charset=utf-8"@,
        }
    }

    /// The value of the `Content-Type` header.
    pub fn header(&self) -> (text: &'static str)
        ensures
            text@ == self.spec_header(),
    {
        match self {
            ContentType::Jpeg => "image/jpeg",
            ContentType::PlainText => "text/plain; charset=utf-8",
        }
    }
}

/// A body: a message for a person, or the bytes of an image.
#[derive(Debug, Clone, PartialEq, Eq)]
pub enum Body {
    Text(String),
    Bytes(Vec<u8>),
}

/// What a body holds.
pub enum BodyView {
    Text(Seq<char>),
    Bytes(Seq<u8>),
}

impl View for Body {
    type V = BodyView;

    open spec fn view(&self) -> BodyView {
        match self {
            Body::Text(text) => BodyView::Text(text@),
            Body::Bytes(bytes) => BodyView::Bytes(bytes@),
        }
    }
}

/// A response.
#[derive(Debug, Clone, PartialEq, Eq)]
pub struct Response {
    pub status: Status,
    pub content_type: ContentType,
    pub body: Body,
}

/// What a response holds.
pub struct ResponseView {
    pub status: Status,
    pub content_type: ContentType,
    pub body: BodyView,
}

impl View for Response {
    type V = ResponseView;

    open spec fn view(&self) -> ResponseView {
        ResponseView { status: self.status, content_type: self.content_type, body: self.body@ }
    }
}

/// The response to a failure of the given kind: its status, and a message.
pub open spec fn spec_failure(kind: ErrorKind, message: Seq<char>) -> ResponseView {
    ResponseView {
        status: kind.spec_status(),
        content_type: ContentType::PlainText,
        body: BodyView::Text(message),
    }
}

/// The response that carries the encoded image.
pub open spec fn spec_jpeg(payload: Seq<u8>) -> ResponseView {
    ResponseView { status: Status::Success, content_type: ContentType::Jpeg, body: BodyView::Bytes(payload) }
}

impl Response {
    /// The response to a failure of the given kind, with a message.
    pub fn failure(kind: ErrorKind, message: String) -> (response: Response)
        ensures
            response@ == spec_failure(kind, message@),
    {
        Response { status: kind.status(), content_type: ContentType::PlainText, body: Body::Text(message) }
    }

    /// The encoded image, with status 200.
    pub fn jpeg(payload: Vec<u8>) -> (response: Response)
        ensures
            response@ == spec_jpeg(payload@),
    {
        Response { status: Status::Success, content_type: ContentType::Jpeg, body: Body::Bytes(payload) }
    }
}

} // verus!
