use frontend::jresponse::{response_plan, ApiReply, BasicReply, JsonResponse, JsonValue};
use frontend::qstring::Value;

fn reply_of(resp: JsonResponse) -> (String, Option<String>) {
    let r = resp.reply_value();
    (r.status, r.reply.map(|v| v.text))
}

#[test]
fn reply_value_names_each_error() {
    assert_eq!(reply_of(JsonResponse::NotFound), ("Not Found".to_string(), None));
    assert_eq!(reply_of(JsonResponse::MethodNotAllowed), ("Method Not Allowed".to_string(), None));
    assert_eq!(reply_of(JsonResponse::BadRequest), ("Bad Request".to_string(), None));
    assert_eq!(reply_of(JsonResponse::TooManyRequests), ("Too Many Requests".to_string(), None));
    assert_eq!(reply_of(JsonResponse::EmptyQuery), ("Empty Query".to_string(), None));
    assert_eq!(reply_of(JsonResponse::RequestTimeout), ("Request Timeout".to_string(), None));
    assert_eq!(reply_of(JsonResponse::Locked), ("Locked".to_string(), None));
    assert_eq!(reply_of(JsonResponse::ImATeapot), ("I'm a teapot".to_string(), None));
    assert_eq!(reply_of(JsonResponse::MisdirectedRequest), ("Misdirected Request".to_string(), None));
    assert_eq!(reply_of(JsonResponse::UnprocessableEntity), ("Unprocessable Entity".to_string(), None));
    assert_eq!(reply_of(JsonResponse::empty_error()), ("Internal Server Error".to_string(), None));
}

#[test]
fn reply_value_of_success_is_the_reply() {
    let r = BasicReply::new("fine".to_string(), Some(JsonValue { text: "[1]".to_string() }));
    assert_eq!(reply_of(JsonResponse::ok(r)), ("fine".to_string(), Some("[1]".to_string())));
}

#[test]
fn internal_error_carries_json_string() {
    let resp: JsonResponse = JsonResponse::internal_error("bad \"x\"\n\\");
    assert_eq!(
        reply_of(resp),
        ("Internal Server Error".to_string(), Some("\"bad \\\"x\\\"\\n\\\\\"".to_string()))
    );
    let resp: JsonResponse = JsonResponse::internal_error("\u{1}\u{7f}é");
    assert_eq!(reply_of(resp).1, Some("\"\\u0001\u{7f}é\"".to_string()));
}

#[test]
fn internal_error_text_is_valid_json() {
    let resp: JsonResponse = JsonResponse::internal_error("tab\there");
    let text = reply_of(resp).1.unwrap();
    let back: serde_json::Value = serde_json::from_str(&text).unwrap();
    assert_eq!(back, serde_json::Value::String("tab\there".to_string()));
}

#[test]
fn debug_error_shows_detail_only_when_debugging() {
    let on: JsonResponse = JsonResponse::debug_error(true, "boom");
    assert_eq!(reply_of(on).1, Some("\"boom\"".to_string()));
    let off: JsonResponse = JsonResponse::debug_error(false, "boom");
    assert_eq!(reply_of(off).1, None);
}

#[test]
fn status_codes() {
    let cases: Vec<(JsonResponse, u16)> = vec![
        (JsonResponse::NotFound, 404),
        (JsonResponse::MethodNotAllowed, 405),
        (JsonResponse::BadRequest, 400),
        (JsonResponse::TooManyRequests, 429),
        (JsonResponse::InternalServerError(None), 500),
        (JsonResponse::EmptyQuery, 400),
        (JsonResponse::RequestTimeout, 408),
        (JsonResponse::Locked, 423),
        (JsonResponse::ImATeapot, 418),
        (JsonResponse::MisdirectedRequest, 421),
        (JsonResponse::UnprocessableEntity, 422),
        (JsonResponse::Success(BasicReply::new("ok".to_string(), None)), 200),
    ];
    for (resp, code) in cases {
        assert_eq!(resp.status(), code);
        assert_eq!(code == 200, matches!(resp, JsonResponse::Success(_)));
    }
}

#[test]
fn basic_reply_error_builds_the_reply() {
    let r = <BasicReply as ApiReply>::error("Ok".to_string(), None);
    assert_eq!(r.status, "Ok");
    assert!(r.reply.is_none());
}

#[derive(Debug)]
struct PayloadReply {
    status: String,
    payload: String,
}

impl ApiReply for PayloadReply {
    fn error(status: String, data: Option<JsonValue>) -> Self {
        PayloadReply { status, payload: data.map(|v| v.text).unwrap_or_default() }
    }
}

#[test]
fn reply_types_of_users_get_errors_too() {
    let resp: JsonResponse<PayloadReply> = JsonResponse::internal_error("oops");
    let r = resp.reply_value();
    assert_eq!(r.status, "Internal Server Error");
    assert_eq!(r.payload, "\"oops\"");
    let resp: JsonResponse<PayloadReply> = JsonResponse::ok(PayloadReply { status: "Ok".to_string(), payload: "x".to_string() });
    assert_eq!(resp.reply_value().payload, "x");
}

#[test]
fn received_answers_cancelled_requests_with_an_empty_error() {
    let (tx, rx) = futures::channel::oneshot::channel::<JsonResponse>();
    drop(tx);
    let outcome = futures::executor::block_on(rx);
    assert_eq!(reply_of(JsonResponse::received(outcome)), ("Internal Server Error".to_string(), None));
    let (tx, rx) = futures::channel::oneshot::channel::<JsonResponse>();
    tx.send(JsonResponse::NotFound).unwrap();
    assert_eq!(JsonResponse::received(futures::executor::block_on(rx)).status(), 404);
}

#[test]
fn response_plan_falls_back_to_500() {
    let err = || -> Result<String, serde_json::Error> { Err(serde_json::from_str::<u8>("x").unwrap_err()) };
    assert_eq!(response_plan(404, Ok("{}".to_string()), Ok("[]".to_string())), (404, Some("{}".to_string())));
    assert_eq!(response_plan(404, err(), Ok("[]".to_string())), (500, Some("[]".to_string())));
    assert_eq!(response_plan(200, err(), err()), (500, None));
}

#[test]
fn try_map_with_identity_keeps_values() {
    let v: Value<String> = Value::Vec(vec!["a".to_string(), "b".to_string()]);
    let r: Result<Value<String>, ()> = v.try_map(|x| Ok(x.clone()));
    assert!(matches!(r, Ok(Value::Vec(ref xs)) if xs == &vec!["a".to_string(), "b".to_string()]));
}

#[test]
fn try_map_with_clone_keeps_one_value() {
    let v: Value<String> = Value::One("q".to_string());
    let r: Result<Value<String>, ()> = v.try_map(|x| Ok(x.clone()));
    assert!(matches!(r, Ok(Value::One(ref x)) if x == "q"));
    let e: Value<String> = Value::Empty;
    assert!(matches!(e.try_map(|x| Ok::<String, ()>(x.clone())), Ok(Value::Empty)));
}
