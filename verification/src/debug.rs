use vstd::prelude::*;

use crate::jresponse::{is_error_reply, json_quoted, ApiReply, JsonResponse};
use crate::server::DispatchResult;

verus! {

/// A request to the debug server.
pub enum AppRequest<R> {
    /// Is the server up?
    Ready,
    /// Stop the server.
    Exit,
    /// Work for the server, on behalf of the role that received it.
    Payload { role: String, request: R },
}

/// Where the debug server sends a request, by method and path.
pub enum Route {
    /// `POST /`: the body is a payload.
    Payload,
    /// `GET /ready`.
    Ready,
    /// `GET /exit`.
    Exit,
    /// Anything else: the method is not allowed.
    NotAllowed,
}

/// The route of a request with this method and path.
pub open spec fn route_of(method: Seq<char>, path: Seq<char>) -> Route {
    if method == "POST"@ && path == "/"@ {
        Route::Payload
    } else if method == "GET"@ && path == "/ready"@ {
        Route::Ready
    } else if method == "GET"@ && path == "/exit"@ {
        Route::Exit
    } else {
        Route::NotAllowed
    }
}

/// The debug server routes exactly three requests, and nothing else: `POST /`
/// is a payload, `GET /ready` asks whether it is up, `GET /exit` stops it;
/// every other method and path is refused.
pub proof fn law_debug_routes(method: Seq<char>, path: Seq<char>)
    ensures
        route_of(method, path) is Payload <==> (method == "POST"@ && path == "/"@),
        route_of(method, path) is Ready <==> (method == "GET"@ && path == "/ready"@),
        route_of(method, path) is Exit <==> (method == "GET"@ && path == "/exit"@),
        route_of(method, path) is NotAllowed <==> !((method == "POST"@ && path == "/"@) || (method
            == "GET"@ && path == "/ready"@) || (method == "GET"@ && path == "/exit"@)),
{
    reveal_strlit("POST");
    reveal_strlit("GET");
    reveal_strlit("/");
    reveal_strlit("/ready");
    reveal_strlit("/exit");
    assert("POST"@ != "GET"@ ) by {
        assert("POST"@.len() != "GET"@.len());
    }
    assert("/"@ != "/ready"@) by {
        assert("/"@.len() != "/ready"@.len());
    }
    assert("/"@ != "/exit"@) by {
        assert("/"@.len() != "/exit"@.len());
    }
    assert("/ready"@ != "/exit"@) by {
        assert("/ready"@[1] != "/exit"@[1]);
    }
}

/// Whether two texts are the same.
fn same_text(a: &str, b: &str) -> (r: bool)
    ensures
        r == (a@ == b@),
{
    a.to_owned() == b.to_owned()
}

/// Routes a request of the debug server by its method and path.
pub fn route(method: &str, path: &str) -> (r: Route)
    ensures
        r == route_of(method@, path@),
{
    if same_text(method, "POST") && same_text(path, "/") {
        Route::Payload
    } else if same_text(method, "GET") && same_text(path, "/ready") {
        Route::Ready
    } else if same_text(method, "GET") && same_text(path, "/exit") {
        Route::Exit
    } else {
        Route::NotAllowed
    }
}

/// What the debug server makes of a payload for `role` whose body read as
/// `body`: the payload to process, or, where the body could not be read, an
/// internal error that carries the reason as a JSON string.
pub open spec fn payload_dispatched<R, P: ApiReply>(
    role: Seq<char>,
    body: Result<R, String>,
    r: DispatchResult<AppRequest<R>, P>,
) -> bool {
    match body {
        Ok(req) => r matches DispatchResult::Process(AppRequest::Payload { role: ro, request: q })
            && ro@ == role && q == req,
        Err(msg) => r matches DispatchResult::Reject(JsonResponse::InternalServerError(Some(v)))
            && v@ == json_quoted(msg@),
    }
}

/// What the debug server makes of a request to `role` with this method and
/// path. `POST /` is a payload, whose body `read_body` reads (it is called
/// there and nowhere else); `GET /ready` and `GET /exit` are processed as
/// they are; any other request is refused as a method not allowed.
pub fn dispatch<R, P: ApiReply, F: FnOnce() -> Result<R, String>>(
    role: &str,
    method: &str,
    path: &str,
    read_body: F,
) -> (r: DispatchResult<AppRequest<R>, P>)
    requires
        call_requires(read_body, ()),
    ensures
        match route_of(method@, path@) {
            Route::Payload => exists|b: Result<R, String>|
                call_ensures(read_body, (), b) && #[trigger] payload_dispatched(role@, b, r),
            Route::Ready => r matches DispatchResult::Process(AppRequest::Ready),
            Route::Exit => r matches DispatchResult::Process(AppRequest::Exit),
            Route::NotAllowed => r matches DispatchResult::Reject(JsonResponse::MethodNotAllowed),
        },
{
    match route(method, path) {
        Route::Payload => {
            let body = read_body();
            let r = match body {
                Ok(request) => DispatchResult::Process(AppRequest::Payload { role: role.to_owned(), request }),
                Err(msg) => DispatchResult::Reject(JsonResponse::internal_error(msg.as_str())),
            };
            assert(payload_dispatched(role@, body, r));
            r
        },
        Route::Ready => DispatchResult::Process(AppRequest::Ready),
        Route::Exit => DispatchResult::Process(AppRequest::Exit),
        Route::NotAllowed => DispatchResult::Reject(JsonResponse::MethodNotAllowed),
    }
}

impl<R> AppRequest<R> {
    /// The answer that a control request gets at once, the reply "Ok" with no
    /// data; a payload gets none here, since the server works it out.
    pub fn control_reply<P: ApiReply>(&self) -> (r: Option<P>)
        ensures
            r is None <==> self is Payload,
            r matches Some(p) ==> is_error_reply(p, "Ok"@, None),
    {
        match self {
            AppRequest::Payload { .. } => None,
            _ => Some(P::error("Ok".to_owned(), None)),
        }
    }

}

} // verus!
