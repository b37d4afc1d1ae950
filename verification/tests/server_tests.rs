use frontend::debug::{dispatch, route, AppRequest, Route};
use frontend::jresponse::{BasicReply, JsonResponse};
use frontend::qstring::QueryString;
use frontend::server::{
    listen_step, run_outcome, DispatchResult, FrontendError, HtmlSender, InitDestructor, ListenAction,
    ListenEvent, ReplySender,
};

fn received(rx: futures::channel::oneshot::Receiver<JsonResponse>) -> Option<(u16, String, Option<String>)> {
    let resp = futures::executor::block_on(rx).ok()?;
    let code = resp.status();
    let reply = resp.reply_value();
    Some((code, reply.status, reply.reply.map(|v| v.text)))
}

#[test]
fn reply_sender_answers_once() {
    let (mut sender, rx) = ReplySender::<BasicReply>::oneshot();
    assert!(sender.ok(BasicReply::new("done".to_string(), None)).is_ok());
    assert!(matches!(sender.ok(BasicReply::new("again".to_string(), None)), Err(FrontendError::NoSender)));
    assert!(matches!(sender.error("late".to_string()), Err(FrontendError::NoSender)));
    assert_eq!(received(rx), Some((200, "done".to_string(), None)));
}

#[test]
fn reply_sender_reports_gone_receiver() {
    let (mut sender, rx) = ReplySender::<BasicReply>::oneshot();
    drop(rx);
    assert!(matches!(sender.send(JsonResponse::NotFound), Err(FrontendError::BackendSend)));
    assert!(matches!(sender.send(JsonResponse::NotFound), Err(FrontendError::NoSender)));
}

#[test]
fn reply_sender_error_hides_detail_unless_debugging() {
    let (mut quiet, rx) = ReplySender::<BasicReply>::oneshot();
    assert!(quiet.error("secret".to_string()).is_ok());
    assert_eq!(received(rx), Some((500, "Internal Server Error".to_string(), None)));

    let (tx, rx) = futures::channel::oneshot::channel();
    let mut loud = ReplySender::<BasicReply>::for_channel(true, tx);
    assert!(loud.error("secret".to_string()).is_ok());
    assert_eq!(received(rx), Some((500, "Internal Server Error".to_string(), Some("\"secret\"".to_string()))));
}

#[test]
fn reply_sender_send_result() {
    let (tx, rx) = futures::channel::oneshot::channel();
    let mut loud = ReplySender::<BasicReply>::for_channel(true, tx);
    let rr: Result<BasicReply, u8> = Err(7);
    assert!(loud.send_result(rr).is_ok());
    assert_eq!(received(rx), Some((500, "Internal Server Error".to_string(), Some("\"7\"".to_string()))));

    let (mut quiet, rx) = ReplySender::<BasicReply>::oneshot();
    let rr: Result<BasicReply, u8> = Err(7);
    assert!(quiet.send_result(rr).is_ok());
    assert_eq!(received(rx), Some((500, "Internal Server Error".to_string(), None)));

    let (mut s, rx) = ReplySender::<BasicReply>::oneshot();
    let rr: Result<BasicReply, u8> = Ok(BasicReply::new("fine".to_string(), None));
    assert!(s.send_result(rr).is_ok());
    assert_eq!(received(rx), Some((200, "fine".to_string(), None)));
}

#[test]
fn reply_sender_stream_is_not_implemented() {
    let (body_tx, _body) = hyper::Body::channel();
    let mut s = ReplySender::<BasicReply>::for_stream(false, body_tx);
    assert!(matches!(s.send(JsonResponse::NotFound), Err(FrontendError::NotImplemented)));
    assert!(matches!(s.ok(BasicReply::new("x".to_string(), None)), Err(FrontendError::NotImplemented)));
}

#[test]
fn html_sender_delivers_page() {
    let (tx, rx) = futures::channel::oneshot::channel();
    let mut html = HtmlSender::new(tx);
    assert!(html.send("<p>hi</p>".to_string()).is_ok());
    assert!(matches!(html.send("<p>again</p>".to_string()), Err(FrontendError::NoSender)));
    assert_eq!(futures::executor::block_on(rx).unwrap(), "<p>hi</p>");
    let (tx, rx) = futures::channel::oneshot::channel::<String>();
    drop(rx);
    assert!(matches!(HtmlSender::new(tx).send("x".to_string()), Err(FrontendError::BackendSend)));
}

#[test]
fn listen_step_counts_and_decides() {
    let (n, a) = listen_step(0, ListenEvent::Accepted);
    assert_eq!(n, 1);
    assert!(matches!(a, ListenAction::Serve));
    let (n, a) = listen_step(n, ListenEvent::AcceptFailed);
    assert_eq!(n, 2);
    assert!(matches!(a, ListenAction::Report("invalid connection")));
    let (_, a) = listen_step(n, ListenEvent::PeerUnknown);
    assert!(matches!(a, ListenAction::Report("invalid connection peer_addr")));
    let (n, a) = listen_step(usize::MAX, ListenEvent::Closed);
    assert_eq!(n, 0);
    assert!(matches!(a, ListenAction::Stop));
}

#[test]
fn query_errors_become_internal_errors() {
    let err = QueryString::from_uri("/p?x=%FF").unwrap_err();
    let d: DispatchResult<u32> = DispatchResult::from(err);
    match d {
        DispatchResult::Reject(resp) => {
            assert_eq!(resp.status(), 500);
            let text = resp.reply_value().reply.unwrap().text;
            assert!(text.starts_with("\"Utf8("));
        }
        _ => panic!("expected a rejection"),
    }
}

#[test]
fn debug_server_routes() {
    assert!(matches!(route("POST", "/"), Route::Payload));
    assert!(matches!(route("GET", "/ready"), Route::Ready));
    assert!(matches!(route("GET", "/exit"), Route::Exit));
    assert!(matches!(route("GET", "/"), Route::NotAllowed));
    assert!(matches!(route("POST", "/ready"), Route::NotAllowed));
    assert!(matches!(route("PUT", "/exit"), Route::NotAllowed));
}

#[test]
fn control_requests_get_ok_at_once() {
    let ready: AppRequest<u64> = AppRequest::Ready;
    let r: Option<BasicReply> = ready.control_reply();
    assert_eq!(r.map(|r| r.status), Some("Ok".to_string()));
    let exit: AppRequest<u64> = AppRequest::Exit;
    assert!(exit.control_reply::<BasicReply>().is_some());
    let work = AppRequest::Payload { role: "back_x1".to_string(), request: 56u64 };
    assert!(work.control_reply::<BasicReply>().is_none());
}

#[test]
fn debug_dispatch_reads_body_only_for_payloads() {
    let r: DispatchResult<AppRequest<u64>, BasicReply> = dispatch("back_x1", "POST", "/", || Ok(56u64));
    match r {
        DispatchResult::Process(AppRequest::Payload { role, request }) => {
            assert_eq!(role, "back_x1");
            assert_eq!(request, 56);
        }
        _ => panic!("a payload is processed"),
    }
    let r: DispatchResult<AppRequest<u64>, BasicReply> =
        dispatch("back_x1", "POST", "/", || Err("bad body".to_string()));
    match r {
        DispatchResult::Reject(JsonResponse::InternalServerError(Some(v))) => assert_eq!(v.text, "\"bad body\""),
        _ => panic!("an unreadable body is an internal error"),
    }
    let r: DispatchResult<AppRequest<u64>, BasicReply> =
        dispatch("back_x1", "GET", "/ready", || panic!("the body is not read"));
    assert!(matches!(r, DispatchResult::Process(AppRequest::Ready)));
    let r: DispatchResult<AppRequest<u64>, BasicReply> = dispatch("back_x1", "GET", "/exit", || Ok(1u64));
    assert!(matches!(r, DispatchResult::Process(AppRequest::Exit)));
    let r: DispatchResult<AppRequest<u64>, BasicReply> = dispatch("back_x1", "DELETE", "/", || Ok(1u64));
    assert!(matches!(r, DispatchResult::Reject(JsonResponse::MethodNotAllowed)));
}

#[test]
fn run_outcome_by_mode() {
    assert!(matches!(run_outcome(&InitDestructor::Init, None), Ok(())));
    assert!(matches!(run_outcome(&InitDestructor::Init, Some(Err(FrontendError::NoSender))), Ok(())));
    assert!(matches!(
        run_outcome(&InitDestructor::Ignore, Some(Ok(()))),
        Err(FrontendError::UnexpectedTermination)
    ));
    assert!(matches!(
        run_outcome(&InitDestructor::Ignore, Some(Err(FrontendError::NoSender))),
        Err(FrontendError::NoSender)
    ));
}
