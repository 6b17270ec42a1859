//! One request, from the parsed query to the response.
//!
//! The handler decides; the work it cannot do is done by the caller. The
//! caller starts in `Stage::Parsing`, hands `step` what happened, does what
//! the returned action says, and hands back how that went, until the action is
//! a response. Validation needs nothing from outside, so it happens within the
//! step that leaves `Parsing`. The pixel transform and the encoding that
//! follows it are the work that the caller runs on the image store; the
//! handler itself never sees the image.

use vstd::prelude::*;
use vstd::string::*;
use crate::binary64::{ZERO, ONE, lt, magnitude, is_nan, is_finite, is_negative};
use crate::arithmetic::LARGEST_WITHOUT_RECIPROCAL;
use crate::request::{RangeViolation, Field, Request, TransformParameters, names, lemma_message_names_field, lemma_parameters_in_range};
use crate::response::{Response, ResponseView, BodyView, ContentType, ErrorKind, Status, spec_failure, spec_jpeg};

verus! {

/// Where a request stands.
#[derive(Debug, Clone, Copy, PartialEq, Eq, Structural)]
pub enum Stage {
    /// Nothing is known yet.
    Parsing,
    /// A number was out of range; its decimal form is awaited.
    Rejecting(RangeViolation),
    /// The pixel transform is running.
    Transforming,
    /// The codec is running.
    Encoding,
    /// The image is on its way to the client.
    Responding,
    /// The request has failed, and the client is being told.
    Failed(ErrorKind),
}

/// What the caller reports.
#[derive(Debug, Clone, PartialEq, Eq)]
pub enum Event {
    /// The query held both numbers.
    Parsed(Request),
    /// The query lacked a number or held something else; the parser's words.
    Unparseable(String),
    /// The decimal form of the value that was to be written.
    Rendered(String),
    /// The transform produced an image.
    Transformed,
    /// The transform failed.
    TransformFailed,
    /// The codec produced these bytes.
    Encoded(Vec<u8>),
    /// The codec failed.
    EncodeFailed,
}

/// What an event holds.
pub enum EventView {
    Parsed(Request),
    Unparseable(Seq<char>),
    Rendered(Seq<char>),
    Transformed,
    TransformFailed,
    Encoded(Seq<u8>),
    EncodeFailed,
}

impl View for Event {
    type V = EventView;

    open spec fn view(&self) -> EventView {
        match self {
            Event::Parsed(request) => EventView::Parsed(*request),
            Event::Unparseable(reason) => EventView::Unparseable(reason@),
            Event::Rendered(text) => EventView::Rendered(text@),
            Event::Transformed => EventView::Transformed,
            Event::TransformFailed => EventView::TransformFailed,
            Event::Encoded(payload) => EventView::Encoded(payload@),
            Event::EncodeFailed => EventView::EncodeFailed,
        }
    }
}

/// What the caller is to do next.
#[derive(Debug, Clone, PartialEq, Eq)]
pub enum Action {
    /// Write this binary64 number in decimal.
    Render(u64),
    /// Run the pixel transform on the source image with these parameters.
    Transform(TransformParameters),
    /// Encode the transformed image as JPEG.
    Encode,
    /// Send this and stop.
    Respond(Response),
}

/// What an action holds.
pub enum ActionView {
    Render(u64),
    Transform(TransformParameters),
    Encode,
    Respond(ResponseView),
}

impl View for Action {
    type V = ActionView;

    open spec fn view(&self) -> ActionView {
        match self {
            Action::Render(value) => ActionView::Render(*value),
            Action::Transform(parameters) => ActionView::Transform(*parameters),
            Action::Encode => ActionView::Encode,
            Action::Respond(response) => ActionView::Respond(response@),
        }
    }
}

/// The message when the transform fails.
pub open spec fn spec_transform_failure() -> Seq<char> {
    "Error converting image"@
}

/// The message when the codec fails.
pub open spec fn spec_encode_failure() -> Seq<char> {
    "Error writing image"@
}

/// The step into failure: the stage, and the response that tells the client.
pub open spec fn fail(kind: ErrorKind, message: Seq<char>) -> Option<(Stage, ActionView)> {
    Some((Stage::Failed(kind), ActionView::Respond(spec_failure(kind, message))))
}

/// The handler's table: for each stage and each event that belongs to it, the
/// next stage and the action. An event that does not belong has no entry, and
/// the last two stages have none at all.
pub open spec fn transition(stage: Stage, event: EventView) -> Option<(Stage, ActionView)> {
    match (stage, event) {
        (Stage::Parsing, EventView::Parsed(request)) => match request.rejection() {
            Some(violation) => Some((Stage::Rejecting(violation), ActionView::Render(violation.value))),
            None => Some((Stage::Transforming, ActionView::Transform(request.spec_normalize()))),
        },
        (Stage::Parsing, EventView::Unparseable(reason)) => fail(ErrorKind::BadRequest, reason),
        (Stage::Rejecting(violation), EventView::Rendered(text)) => fail(
            ErrorKind::BadRequest,
            violation.spec_message(text),
        ),
        (Stage::Transforming, EventView::Transformed) => Some((Stage::Encoding, ActionView::Encode)),
        (Stage::Transforming, EventView::TransformFailed) => fail(
            ErrorKind::TransformFailure,
            spec_transform_failure(),
        ),
        (Stage::Encoding, EventView::Encoded(payload)) => Some(
            (Stage::Responding, ActionView::Respond(spec_jpeg(payload))),
        ),
        (Stage::Encoding, EventView::EncodeFailed) => fail(
            ErrorKind::EncodeFailure,
            spec_encode_failure(),
        ),
        _ => None,
    }
}

/// What the codec's outcome comes to. The codec reports whether it wrote the
/// image, or fails outright (`None`); the bytes are then read back, which may
/// fail too. Only what was reported written and could be read is an image.
pub open spec fn spec_encoding_event(reported: Option<bool>, staged: Option<Seq<u8>>) -> EventView {
    match (reported, staged) {
        (Some(true), Some(payload)) => EventView::Encoded(payload),
        _ => EventView::EncodeFailed,
    }
}

/// The event for the codec's outcome: its report, and the bytes read back.
pub fn encoding_event(reported: Option<bool>, staged: Option<Vec<u8>>) -> (event: Event)
    ensures
        event@ == spec_encoding_event(
            reported,
            match staged {
                Some(payload) => Some(payload@),
                None => None,
            },
        ),
{
    match reported {
        Some(true) => match staged {
            Some(payload) => Event::Encoded(payload),
            None => Event::EncodeFailed,
        },
        _ => Event::EncodeFailed,
    }
}

/// The event for the transform's outcome.
pub fn transform_event(succeeded: bool) -> (event: Event)
    ensures
        event@ == if succeeded {
            EventView::Transformed
        } else {
            EventView::TransformFailed
        },
{
    if succeeded {
        Event::Transformed
    } else {
        Event::TransformFailed
    }
}

/// The stage and the response of a failure.
fn failed(kind: ErrorKind, message: String) -> (r: Option<(Stage, Action)>)
    ensures
        r matches Some((stage, action)) && fail(kind, message@) == Some((stage, action@)),
{
    Some((Stage::Failed(kind), Action::Respond(Response::failure(kind, message))))
}

/// Takes the request one step on: `None` if the event does not belong to
/// the stage, else the next stage and what to do.
pub fn step(stage: Stage, event: Event) -> (r: Option<(Stage, Action)>)
    ensures
        match r {
            Some((next, action)) => transition(stage, event@) == Some((next, action@)),
            None => transition(stage, event@) is None,
        },
{
    match stage {
        Stage::Parsing => match event {
            Event::Parsed(request) => match request.validate() {
                Err(violation) => Some((Stage::Rejecting(violation), Action::Render(violation.value))),
                Ok(()) => Some((Stage::Transforming, Action::Transform(request.normalize()))),
            },
            Event::Unparseable(reason) => failed(ErrorKind::BadRequest, reason),
            _ => None,
        },
        Stage::Rejecting(violation) => match event {
            Event::Rendered(text) => failed(ErrorKind::BadRequest, violation.message(text.as_str())),
            _ => None,
        },
        Stage::Transforming => match event {
            Event::Transformed => Some((Stage::Encoding, Action::Encode)),
            Event::TransformFailed => failed(
                ErrorKind::TransformFailure,
                String::from_str("Error converting image"),
            ),
            _ => None,
        },
        Stage::Encoding => match event {
            Event::Encoded(payload) => Some(
                (Stage::Responding, Action::Respond(Response::jpeg(payload))),
            ),
            Event::EncodeFailed => failed(
                ErrorKind::EncodeFailure,
                String::from_str("Error writing image"),
            ),
            _ => None,
        },
        Stage::Responding => None,
        Stage::Failed(_) => None,
    }
}

/// The response to a request that is out of range, once the offending value
/// has been written as `value_text`.
pub open spec fn rejection_response(request: Request, value_text: Seq<char>) -> Option<ResponseView> {
    match transition(Stage::Parsing, EventView::Parsed(request)) {
        Some((Stage::Rejecting(violation), ActionView::Render(value))) => match transition(
            Stage::Rejecting(violation),
            EventView::Rendered(value_text),
        ) {
            Some((Stage::Failed(kind), ActionView::Respond(response))) => Some(response),
            _ => None,
        },
        _ => None,
    }
}

/// Whether the response has the given status code and a message that holds
/// the given word.
pub open spec fn complains_of(response: ResponseView, code: u16, word: Seq<char>) -> bool {
    &&& response.status.spec_code() == code
    &&& response.body matches BodyView::Text(message) && names(message, word)
}

/// A request that is out of range is answered with status 400 and a message
/// that names the field at fault, however the value is written, and the
/// transform is not asked for.
pub proof fn lemma_out_of_range_rejected(request: Request, value_text: Seq<char>)
    requires
        request.rejection() matches Some(violation),
    ensures
        request.rejection() matches Some(violation) && {
            &&& transition(Stage::Parsing, EventView::Parsed(request)) == Some(
                (Stage::Rejecting(violation), ActionView::Render(violation.value)),
            )
            &&& rejection_response(request, value_text) matches Some(response) && complains_of(
                response,
                400,
                violation.field.spec_name(),
            )
        },
{
    lemma_message_names_field(request.rejection()->0, value_text);
}

/// A brightness below zero is answered with status 400 and a message that
/// names the brightness, whatever the contrast is and however the value is
/// written.
pub proof fn lemma_low_brightness_rejected(request: Request, value_text: Seq<char>)
    requires
        lt(request.brightness, ZERO),
    ensures
        transition(Stage::Parsing, EventView::Parsed(request)) matches Some((_, action))
            && action == ActionView::Render(request.brightness),
        rejection_response(request, value_text) matches Some(response) && complains_of(
            response,
            400,
            "brightness"@,
        ),
{
    lemma_out_of_range_rejected(request, value_text);
}

/// With a brightness that is not below zero, a contrast below zero or above
/// one is answered with status 400 and a message that names the contrast, however the value
/// is written.
pub proof fn lemma_contrast_out_of_range_rejected(request: Request, value_text: Seq<char>)
    requires
        Field::Brightness.admits(request.brightness),
        lt(request.contrast, ZERO) || lt(ONE, request.contrast),
    ensures
        transition(Stage::Parsing, EventView::Parsed(request)) matches Some((_, action))
            && action == ActionView::Render(request.contrast),
        rejection_response(request, value_text) matches Some(response) && complains_of(
            response,
            400,
            "contrast"@,
        ),
{
    lemma_out_of_range_rejected(request, value_text);
}

/// With a brightness that is not below zero, a contrast of zero, of either
/// sign, is answered with status 400 and a message that names the contrast:
/// it never reaches the reciprocal.
pub proof fn lemma_zero_contrast_rejected(request: Request, value_text: Seq<char>)
    requires
        Field::Brightness.admits(request.brightness),
        magnitude(request.contrast) == 0,
    ensures
        transition(Stage::Parsing, EventView::Parsed(request)) matches Some((_, action))
            && action == ActionView::Render(request.contrast),
        rejection_response(request, value_text) matches Some(response) && complains_of(
            response,
            400,
            "contrast"@,
        ),
{
    lemma_out_of_range_rejected(request, value_text);
}

/// The transform is asked for only with the parameters of a request in
/// range, and so never for a contrast of zero. Its offset is then never
/// negative, and is a finite number for every contrast that is a number
/// above 2^-1024.
pub proof fn lemma_transform_gets_parameters(stage: Stage, event: EventView)
    requires
        transition(stage, event) matches Some((_, ActionView::Transform(parameters))),
    ensures
        stage == Stage::Parsing,
        event matches EventView::Parsed(request) && {
            &&& request.acceptable()
            &&& magnitude(request.contrast) != 0
            &&& transition(stage, event) == Some(
                (Stage::Transforming, ActionView::Transform(request.spec_normalize())),
            )
            &&& !is_negative(request.spec_normalize().offset)
            &&& is_finite(request.spec_normalize().offset) <==> !is_nan(request.contrast)
                && request.contrast > LARGEST_WITHOUT_RECIPROCAL
        },
{
    match event {
        EventView::Parsed(request) => {
            lemma_parameters_in_range(request);
        },
        _ => {},
    }
}

/// Status 200 goes out in one place only: after the codec has produced its
/// bytes, and with those bytes as the body, marked as JPEG.
pub proof fn lemma_success_carries_the_payload(stage: Stage, event: EventView)
    requires
        transition(stage, event) matches Some((_, ActionView::Respond(response)))
            && response.status == Status::Success,
    ensures
        stage == Stage::Encoding,
        event matches EventView::Encoded(payload) && transition(stage, event) == Some(
            (Stage::Responding, ActionView::Respond(spec_jpeg(payload))),
        ),
{
}

/// Every other response reports a failure: the request ends in `Failed`, and
/// the client gets the status of the kind and a message in plain text.
pub proof fn lemma_failure_carries_a_message(stage: Stage, event: EventView)
    requires
        transition(stage, event) matches Some((_, ActionView::Respond(response)))
            && response.status != Status::Success,
    ensures
        transition(stage, event) matches Some((Stage::Failed(kind), ActionView::Respond(response)))
            && {
            &&& response.status == kind.spec_status()
            &&& response.status.spec_code() == 400 || response.status.spec_code() == 500
            &&& response.content_type == ContentType::PlainText
            &&& response.body is Text
        },
{
}

/// How far a request has come: a stage that awaits the response's sending is
/// at three.
pub open spec fn progress(stage: Stage) -> nat {
    match stage {
        Stage::Parsing => 0,
        Stage::Rejecting(_) => 1,
        Stage::Transforming => 1,
        Stage::Encoding => 2,
        Stage::Responding => 3,
        Stage::Failed(_) => 3,
    }
}

/// Every step takes the request further, and the response goes out with the
/// step that reaches the end. So a request is answered after three steps at
/// most, the transform runs at most once, as the first thing asked for, and
/// the codec at most once, after the transform.
pub proof fn lemma_step_advances(stage: Stage, event: EventView)
    requires
        transition(stage, event) is Some,
    ensures
        transition(stage, event) matches Some((next, action)) && {
            &&& progress(stage) < progress(next) <= 3
            &&& action is Respond <==> progress(next) == 3
            &&& action is Transform ==> stage == Stage::Parsing
            &&& action is Encode ==> stage == Stage::Transforming
        },
{
}

} // verus!
