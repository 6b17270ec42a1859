use image_adjust::handler::{encoding_event, step, transform_event, Action, Event, Stage};
use image_adjust::request::{Field, RangeViolation, Request, TransformParameters};
use image_adjust::response::{Body, ContentType, ErrorKind, Response, Status};

fn parsed(brightness: f64, contrast: f64) -> Event {
    Event::Parsed(Request { brightness: brightness.to_bits(), contrast: contrast.to_bits() })
}

fn text(status: Status, message: &str) -> Response {
    Response { status, content_type: ContentType::PlainText, body: Body::Text(message.to_string()) }
}

/// Runs a request to its response the way a server would, with a transform
/// and a codec that do as they are told.
fn serve(query: Event, transform_works: bool, encoded: Option<Vec<u8>>) -> (Response, Vec<Action>) {
    let (response, actions, _) = serve_to_end(query, transform_works, encoded);
    (response, actions)
}

fn serve_to_end(
    query: Event,
    transform_works: bool,
    encoded: Option<Vec<u8>>,
) -> (Response, Vec<Action>, Stage) {
    let mut stage = Stage::Parsing;
    let mut event = query;
    let mut seen = Vec::new();
    loop {
        let (next, action) = step(stage, event).unwrap();
        stage = next;
        seen.push(action.clone());
        event = match action {
            Action::Render(value) => Event::Rendered(format!("{}", f64::from_bits(value))),
            Action::Transform(_) => {
                if transform_works {
                    Event::Transformed
                } else {
                    Event::TransformFailed
                }
            }
            Action::Encode => match &encoded {
                Some(bytes) => Event::Encoded(bytes.clone()),
                None => Event::EncodeFailed,
            },
            Action::Respond(response) => return (response, seen, stage),
        };
    }
}

#[test]
fn neutral_request_asks_for_the_identity_transform() {
    let (stage, action) = step(Stage::Parsing, parsed(0.5, 1.0)).unwrap();
    assert_eq!(stage, Stage::Transforming);
    assert_eq!(
        action,
        Action::Transform(TransformParameters { scale: 1.0f64.to_bits(), offset: 0.0f64.to_bits() })
    );
}

#[test]
fn accepted_request_is_transformed_encoded_and_sent() {
    let jpeg = vec![0xFF, 0xD8, 0xFF, 0xE0, 0x00, 0x10, 0xFF, 0xD9];
    let (response, actions) = serve(parsed(1.0, 0.5), true, Some(jpeg.clone()));
    assert_eq!(
        response,
        Response { status: Status::Success, content_type: ContentType::Jpeg, body: Body::Bytes(jpeg) }
    );
    assert_eq!(response.status.code(), 200);
    assert_eq!(response.content_type.header(), "image/jpeg");
    assert_eq!(actions.len(), 3);
    assert_eq!(
        actions[0],
        Action::Transform(TransformParameters { scale: 2.0f64.to_bits(), offset: 1.0f64.to_bits() })
    );
    assert_eq!(actions[1], Action::Encode);
}

#[test]
fn empty_payload_is_still_sent() {
    let (response, _) = serve(parsed(0.5, 1.0), true, Some(Vec::new()));
    assert_eq!(response, Response { status: Status::Success, content_type: ContentType::Jpeg, body: Body::Bytes(vec![]) });
}

#[test]
fn negative_brightness_gets_400_naming_brightness() {
    let (response, actions) = serve(parsed(-0.25, 1.0), true, Some(vec![1]));
    assert_eq!(
        response,
        text(Status::BadRequest, "Bad brightness value: -0.25, allowed range is [0.0; +inf]")
    );
    assert_eq!(response.status.code(), 400);
    assert_eq!(response.content_type.header(), "text/plain; charset=utf-8");
    assert_eq!(actions.len(), 2);
    assert_eq!(actions[0], Action::Render((-0.25f64).to_bits()));
}

#[test]
fn contrast_above_one_gets_400_naming_contrast() {
    let (response, actions) = serve(parsed(0.5, 1.5), true, Some(vec![1]));
    assert_eq!(response, text(Status::BadRequest, "Bad contrast value: 1.5, allowed range is (0.0; 1.0]"));
    assert_eq!(actions[0], Action::Render(1.5f64.to_bits()));
}

#[test]
fn negative_contrast_gets_400_naming_contrast() {
    let (response, _) = serve(parsed(0.5, -3.0), true, Some(vec![1]));
    assert_eq!(response, text(Status::BadRequest, "Bad contrast value: -3, allowed range is (0.0; 1.0]"));
}

#[test]
fn both_out_of_range_reports_brightness() {
    let (response, _) = serve(parsed(-1.0, 7.0), true, Some(vec![1]));
    assert_eq!(response, text(Status::BadRequest, "Bad brightness value: -1, allowed range is [0.0; +inf]"));
}

#[test]
fn rejected_request_waits_for_the_written_value() {
    let (stage, action) = step(Stage::Parsing, parsed(0.5, 2.0)).unwrap();
    let bad = RangeViolation { field: Field::Contrast, value: 2.0f64.to_bits() };
    assert_eq!(stage, Stage::Rejecting(bad));
    assert_eq!(action, Action::Render(2.0f64.to_bits()));
    let (stage, action) = step(stage, Event::Rendered("two".to_string())).unwrap();
    assert_eq!(stage, Stage::Failed(ErrorKind::BadRequest));
    assert_eq!(
        action,
        Action::Respond(text(Status::BadRequest, "Bad contrast value: two, allowed range is (0.0; 1.0]"))
    );
}

#[test]
fn unparseable_query_gets_400_with_the_parsers_words() {
    let words = "Query deserialize error: missing field `contrast`";
    let (response, actions) = serve(Event::Unparseable(words.to_string()), true, Some(vec![1]));
    assert_eq!(response, text(Status::BadRequest, words));
    assert_eq!(actions.len(), 1);
}

#[test]
fn failed_transform_gets_500() {
    let (response, actions) = serve(parsed(0.5, 1.0), false, Some(vec![1]));
    assert_eq!(response, text(Status::InternalServerError, "Error converting image"));
    assert_eq!(response.status.code(), 500);
    assert_eq!(actions.len(), 2);
}

#[test]
fn failed_encoding_gets_500() {
    let (response, actions) = serve(parsed(0.5, 1.0), true, None);
    assert_eq!(response, text(Status::InternalServerError, "Error writing image"));
    assert_eq!(actions.len(), 3);
}

#[test]
fn contrast_of_zero_gets_400_naming_contrast() {
    let (stage, action) = step(Stage::Parsing, parsed(0.5, 0.0)).unwrap();
    let violation = RangeViolation { field: Field::Contrast, value: 0.0f64.to_bits() };
    assert_eq!(stage, Stage::Rejecting(violation));
    assert_eq!(action, Action::Render(0.0f64.to_bits()));
    let (response, actions) = serve(parsed(0.5, 0.0), true, Some(vec![1]));
    assert_eq!(response, text(Status::BadRequest, "Bad contrast value: 0, allowed range is (0.0; 1.0]"));
    assert_eq!(actions.len(), 2);
    let (response, actions) = serve(parsed(3.0, -0.0), true, Some(vec![1]));
    assert_eq!(response, text(Status::BadRequest, "Bad contrast value: -0, allowed range is (0.0; 1.0]"));
    assert_eq!(actions[0], Action::Render((-0.0f64).to_bits()));
}

#[test]
fn transform_is_never_asked_for_a_contrast_of_zero() {
    for brightness in [0.0, 0.5, 2.0, f64::MAX, f64::INFINITY, f64::NAN, -0.0, -1.0] {
        for contrast in [0.0f64, -0.0] {
            let (_, actions) = serve(parsed(brightness, contrast), true, Some(vec![1]));
            assert!(actions.iter().all(|action| !matches!(action, Action::Transform(_))));
        }
    }
}

#[test]
fn codec_outcome_is_an_image_only_if_written_and_read_back() {
    let bytes = vec![0xFFu8, 0xD8, 0xFF, 0xD9];
    assert_eq!(encoding_event(Some(true), Some(bytes.clone())), Event::Encoded(bytes.clone()));
    assert_eq!(encoding_event(Some(true), Some(vec![])), Event::Encoded(vec![]));
    assert_eq!(encoding_event(Some(true), None), Event::EncodeFailed);
    assert_eq!(encoding_event(Some(false), Some(bytes.clone())), Event::EncodeFailed);
    assert_eq!(encoding_event(Some(false), None), Event::EncodeFailed);
    assert_eq!(encoding_event(None, Some(bytes)), Event::EncodeFailed);
    assert_eq!(encoding_event(None, None), Event::EncodeFailed);
}

#[test]
fn codec_that_reports_nothing_written_gets_500() {
    let stale = vec![1u8, 2, 3];
    let (stage, action) = step(Stage::Encoding, encoding_event(Some(false), Some(stale))).unwrap();
    assert_eq!(stage, Stage::Failed(ErrorKind::EncodeFailure));
    assert_eq!(action, Action::Respond(text(Status::InternalServerError, "Error writing image")));
}

#[test]
fn transform_outcome_becomes_its_event() {
    assert_eq!(transform_event(true), Event::Transformed);
    assert_eq!(transform_event(false), Event::TransformFailed);
}

#[test]
fn events_out_of_turn_are_refused() {
    let bad = RangeViolation { field: Field::Brightness, value: (-1.0f64).to_bits() };
    let stages = [
        Stage::Parsing,
        Stage::Rejecting(bad),
        Stage::Transforming,
        Stage::Encoding,
        Stage::Responding,
        Stage::Failed(ErrorKind::BadRequest),
        Stage::Failed(ErrorKind::TransformFailure),
        Stage::Failed(ErrorKind::EncodeFailure),
    ];
    let events = [
        parsed(0.5, 1.0),
        Event::Unparseable("no".to_string()),
        Event::Rendered("-1".to_string()),
        Event::Transformed,
        Event::TransformFailed,
        Event::Encoded(vec![1, 2, 3]),
        Event::EncodeFailed,
    ];
    let belongs = |stage: usize, event: usize| match stage {
        0 => event <= 1,
        1 => event == 2,
        2 => event == 3 || event == 4,
        3 => event == 5 || event == 6,
        _ => false,
    };
    for (i, stage) in stages.iter().enumerate() {
        for (j, event) in events.iter().enumerate() {
            assert_eq!(step(*stage, event.clone()).is_some(), belongs(i, j), "stage {i}, event {j}");
        }
    }
}

#[test]
fn requests_do_not_affect_each_other() {
    let jpeg = vec![9, 9, 9];
    let (first, _) = serve(parsed(0.5, 1.0), true, Some(jpeg.clone()));
    let (_, _) = serve(parsed(-1.0, 1.0), true, Some(vec![1]));
    let (_, _) = serve(parsed(2.0, 0.25), false, None);
    let (again, actions) = serve(parsed(0.5, 1.0), true, Some(jpeg));
    assert_eq!(first, again);
    assert_eq!(
        actions[0],
        Action::Transform(TransformParameters { scale: 1.0f64.to_bits(), offset: 0.0f64.to_bits() })
    );
}

#[test]
fn each_run_ends_in_the_stage_of_its_outcome() {
    let ends = |query: Event, transform_works: bool, encoded: Option<Vec<u8>>| {
        serve_to_end(query, transform_works, encoded).2
    };
    assert_eq!(ends(parsed(0.5, 1.0), true, Some(vec![1])), Stage::Responding);
    assert_eq!(ends(parsed(-0.5, 1.0), true, Some(vec![1])), Stage::Failed(ErrorKind::BadRequest));
    assert_eq!(ends(parsed(0.5, 1.5), true, Some(vec![1])), Stage::Failed(ErrorKind::BadRequest));
    assert_eq!(
        ends(Event::Unparseable("no".to_string()), true, Some(vec![1])),
        Stage::Failed(ErrorKind::BadRequest)
    );
    assert_eq!(ends(parsed(0.5, 1.0), false, Some(vec![1])), Stage::Failed(ErrorKind::TransformFailure));
    assert_eq!(ends(parsed(0.5, 1.0), true, None), Stage::Failed(ErrorKind::EncodeFailure));
}

#[test]
fn each_kind_of_failure_has_its_status() {
    assert_eq!(ErrorKind::BadRequest.status(), Status::BadRequest);
    assert_eq!(ErrorKind::TransformFailure.status(), Status::InternalServerError);
    assert_eq!(ErrorKind::EncodeFailure.status(), Status::InternalServerError);
    assert_eq!(Status::Success.code(), 200);
    assert_eq!(Status::BadRequest.code(), 400);
    assert_eq!(Status::InternalServerError.code(), 500);
}

#[test]
fn failure_response_is_plain_text_with_the_status_of_its_kind() {
    assert_eq!(
        Response::failure(ErrorKind::EncodeFailure, "no image".to_string()),
        text(Status::InternalServerError, "no image")
    );
    assert_eq!(Response::failure(ErrorKind::BadRequest, String::new()), text(Status::BadRequest, ""));
    assert_eq!(ContentType::PlainText.header(), "text/plain; charset=utf-8");
    assert_eq!(ContentType::Jpeg.header(), "image/jpeg");
}
