use vstd::prelude::*;

use crate::jresponse::{is_debug_error, json_quoted, ApiReply, BasicReply, JsonResponse};

verus! {

/// The outside type `futures::channel::oneshot::Sender<T>`, declared so that it can be carried; Verus sees nothing inside it.
#[verifier::external_type_specification]
#[verifier::external_body]
#[verifier::reject_recursive_types(T)]
pub struct ExOneshotSender<T>(futures::channel::oneshot::Sender<T>);

/// The outside type `futures::channel::oneshot::Receiver<T>`, declared so that it can be carried; Verus sees nothing inside it.
#[verifier::external_type_specification]
#[verifier::external_body]
#[verifier::reject_recursive_types(T)]
pub struct ExOneshotReceiver<T>(futures::channel::oneshot::Receiver<T>);

/// The outside type `futures::channel::oneshot::Canceled`, declared so that it can be carried; Verus sees nothing inside it.
#[verifier::external_type_specification]
#[verifier::external_body]
pub struct ExCanceled(futures::channel::oneshot::Canceled);

/// The outside type `hyper::body::Sender`, declared so that it can be carried; Verus sees nothing inside it.
#[verifier::external_type_specification]
#[verifier::external_body]
pub struct ExBodySender(hyper::body::Sender);

/// The outside type `hyper::Error`, declared so that it can be carried; Verus sees nothing inside it.
#[verifier::external_type_specification]
#[verifier::external_body]
pub struct ExHyperError(hyper::Error);

/// The outside type `std::io::Error`, declared so that it can be carried; Verus sees nothing inside it.
#[verifier::external_type_specification]
#[verifier::external_body]
pub struct ExIoError(std::io::Error);

/// Calls `futures::channel::oneshot::channel`. Nothing is claimed of the pair.
#[verifier::external_body]
fn oneshot_channel<T>() -> (futures::channel::oneshot::Sender<T>, futures::channel::oneshot::Receiver<T>) {
    futures::channel::oneshot::channel()
}

/// Calls `futures::channel::oneshot::Sender::send`. Claimed: a refused value is
/// handed back unchanged (the crate's source returns `Err(t)` with the `t` it was
/// given). Whether the call succeeds depends on the receiving side and is not
/// claimed.
#[verifier::external_body]
fn oneshot_send<T>(sender: futures::channel::oneshot::Sender<T>, value: T) -> (r: Result<(), T>)
    ensures
        r matches Err(v) ==> v == value,
{
    sender.send(value)
}

/// Hands `value` over on `sender`, and records in `record` the channel and
/// the value handed over.
fn hand_over<T>(
    sender: futures::channel::oneshot::Sender<T>,
    value: T,
    record: &mut Ghost<Option<(futures::channel::oneshot::Sender<T>, T)>>,
) -> (r: Result<(), T>)
    ensures
        final(record)@ == Some((sender, value)),
        r matches Err(v) ==> v == value,
{
    proof {
        *record = Ghost(Some((sender, value)));
    }
    oneshot_send(sender, value)
}

/// Formats a value with its `Debug` implementation. Nothing is claimed of the
/// text.
#[verifier::external_body]
fn debug_text<E: std::fmt::Debug>(e: &E) -> String {
    format!("{:?}", e)
}

/// Why serving failed.
#[derive(Debug)]
pub enum FrontendError {
    UnexpectedTermination,
    NoSender,
    NotImplemented,
    BackendSend,
    Json(serde_json::Error),
    Hyper(hyper::Error),
    /// An address that could not be read, with the reason.
    Address(String),
    Tokio(std::io::Error),
    Tcp(std::io::Error),
}

/// Whether a dispatcher wants to be told that the server is shutting down.
pub enum InitDestructor {
    Init,
    Ignore,
}

/// How serving ends, given the dispatcher's choice and how listening ended
/// (`None` where the dispatcher let go of its reactor control before
/// listening ended). A dispatcher that ignores shutdown expects listening
/// never to end: its end without an error is an unexpected termination, and
/// its error is passed on. A dispatcher that asked to be told ends serving
/// with success, whatever listening did.
pub fn run_outcome(mode: &InitDestructor, listened: Option<Result<(), FrontendError>>) -> (r: Result<
    (),
    FrontendError,
>)
    requires
        *mode is Ignore ==> listened is Some,
    ensures
        *mode is Init ==> r is Ok,
        *mode is Ignore ==> match listened {
            Some(Ok(())) => r matches Err(FrontendError::UnexpectedTermination),
            Some(Err(e)) => r == Err::<(), FrontendError>(e),
            None => false,
        },
{
    match mode {
        InitDestructor::Init => Ok(()),
        InitDestructor::Ignore => match listened {
            Some(Ok(())) => Err(FrontendError::UnexpectedTermination),
            Some(Err(e)) => Err(e),
            None => Err(FrontendError::UnexpectedTermination),
        },
    }
}

/// What a dispatcher makes of a request.
pub enum DispatchResult<R, RP: ApiReply = BasicReply> {
    /// Process the request and answer with JSON.
    Process(R),
    /// Process the request and answer with a stream.
    ChunkedOk(R),
    /// Process the request and answer with HTML.
    Html(R),
    /// Answer at once with this response.
    Reject(JsonResponse<RP>),
}

impl<R, RP: ApiReply> From<crate::qstring::UrlParseError> for DispatchResult<R, RP> {
    /// A query string that cannot be read is answered at once with an
    /// internal error that carries the error's `Debug` text.
    fn from(err: crate::qstring::UrlParseError) -> (r: DispatchResult<R, RP>)
        ensures
            r matches DispatchResult::Reject(JsonResponse::InternalServerError(Some(v))) && exists|t: Seq<char>|
                v@ == json_quoted(t),
    {
        DispatchResult::Reject(JsonResponse::internal_error(debug_text(&err).as_str()))
    }
}

impl<R, RP: ApiReply> vstd::std_specs::convert::FromSpecImpl<crate::qstring::UrlParseError> for DispatchResult<R, RP> {
    /// The `Debug` text that the conversion carries has no specification, so the
    /// conversion is not described by a spec function; its `ensures` says what
    /// holds.
    open spec fn obeys_from_spec() -> bool {
        false
    }

    /// Stands for no conversion: `obeys_from_spec` is false, so nothing rests
    /// on it.
    open spec fn from_spec(v: crate::qstring::UrlParseError) -> Self {
        DispatchResult::Reject(JsonResponse::InternalServerError(None))
    }
}

/// Sends one HTML page back to the connection that asked for it.
pub struct HtmlSender {
    sender: Option<futures::channel::oneshot::Sender<String>>,
    handed: Ghost<Option<(futures::channel::oneshot::Sender<String>, String)>>,
}

impl HtmlSender {
    /// The channel that the page goes out on, while no page has been sent.
    pub closed spec fn channel(&self) -> Option<futures::channel::oneshot::Sender<String>> {
        self.sender
    }

    /// The channel that a page was handed to, and the page.
    pub closed spec fn handed(&self) -> Option<(futures::channel::oneshot::Sender<String>, String)> {
        self.handed@
    }

    /// A sender that hands the page over on `sender`.
    pub fn new(sender: futures::channel::oneshot::Sender<String>) -> (r: HtmlSender)
        ensures
            r.channel() == Some(sender),
            r.handed() is None,
    {
        HtmlSender { sender: Some(sender), handed: Ghost(None) }
    }

    /// Hands the page `s` over on the channel; fails only when the connection
    /// is gone. A page is sent at most once: a second call is refused.
    pub fn send(&mut self, s: String) -> (r: Result<(), FrontendError>)
        ensures
            final(self).channel() is None,
            match old(self).channel() {
                Some(ch) => {
                    &&& final(self).handed() == Some((ch, s))
                    &&& (r is Ok || r matches Err(FrontendError::BackendSend))
                },
                None => {
                    &&& final(self).handed() == old(self).handed()
                    &&& r matches Err(FrontendError::NoSender)
                },
            },
    {
        match self.sender.take() {
            Some(sender) => {
                match hand_over(sender, s, &mut self.handed) {
                    Ok(()) => Ok(()),
                    Err(_) => Err(FrontendError::BackendSend),
                }
            },
            None => Err(FrontendError::NoSender),
        }
    }
}

#[verifier::reject_recursive_types(R)]
enum ReplySenderVariant<R: ApiReply = BasicReply> {
    Oneshot(Option<futures::channel::oneshot::Sender<JsonResponse<R>>>),
    Stream(hyper::body::Sender),
}

/// Sends the one answer to a request back to its connection.
#[verifier::reject_recursive_types(R)]
pub struct ReplySender<R: ApiReply = BasicReply> {
    http_debug: bool,
    sender: ReplySenderVariant<R>,
    handed: Ghost<Option<(futures::channel::oneshot::Sender<JsonResponse<R>>, JsonResponse<R>)>>,
}

/// How one sending attempt leaves a reply sender: a stream refuses (not
/// implemented); a used sender refuses (no sender); an unused one is used up,
/// and fails only when the connection is gone.
pub open spec fn sent<R: ApiReply>(
    before: ReplySender<R>,
    after: ReplySender<R>,
    r: Result<(), FrontendError>,
) -> bool {
    &&& after.debugging() == before.debugging()
    &&& before.is_stream() ==> (after.is_stream() && r matches Err(FrontendError::NotImplemented))
    &&& !before.is_stream() ==> (!after.is_stream() && !after.can_send())
    &&& (!before.is_stream() && !before.can_send()) ==> (r matches Err(FrontendError::NoSender))
    &&& before.can_send() ==> (r is Ok || r matches Err(FrontendError::BackendSend))
    &&& !before.can_send() ==> after.handed() == before.handed()
}

/// The response `resp` was handed over on the channel that `before` held.
pub open spec fn handed_over<R: ApiReply>(
    before: ReplySender<R>,
    after: ReplySender<R>,
    resp: JsonResponse<R>,
) -> bool {
    before.can_send() ==> after.handed() == Some((before.channel()->0, resp))
}

/// A reply sender answers at most once: after any attempt, a second attempt
/// on a one-off sender is refused for want of a sender, whatever the first
/// attempt gave.
pub proof fn law_one_answer<R: ApiReply>(
    s0: ReplySender<R>,
    s1: ReplySender<R>,
    s2: ReplySender<R>,
    r1: Result<(), FrontendError>,
    r2: Result<(), FrontendError>,
)
    requires
        !s0.is_stream(),
        sent(s0, s1, r1),
        sent(s1, s2, r2),
    ensures
        r2 matches Err(FrontendError::NoSender),
        !s2.can_send(),
{
}

impl<R: ApiReply> ReplySender<R> {
    /// Whether errors are answered with their detail.
    pub closed spec fn debugging(&self) -> bool {
        self.http_debug
    }

    /// Whether the answer goes out as a stream.
    pub closed spec fn is_stream(&self) -> bool {
        self.sender is Stream
    }

    /// Whether an answer can still be sent.
    pub closed spec fn can_send(&self) -> bool {
        self.sender matches ReplySenderVariant::Oneshot(Some(_))
    }

    /// The channel that the answer goes out on, while it can still be sent.
    pub closed spec fn channel(&self) -> Option<futures::channel::oneshot::Sender<JsonResponse<R>>> {
        match self.sender {
            ReplySenderVariant::Oneshot(Some(s)) => Some(s),
            _ => None,
        }
    }

    /// The channel that an answer was handed to, and the answer.
    pub closed spec fn handed(&self) -> Option<(futures::channel::oneshot::Sender<JsonResponse<R>>, JsonResponse<R>)> {
        self.handed@
    }

    /// A sender for a one-off answer, and the receiving end of it; errors are
    /// answered without detail.
    pub fn oneshot() -> (r: (ReplySender<R>, futures::channel::oneshot::Receiver<JsonResponse<R>>))
        ensures
            r.0.can_send(),
            !r.0.is_stream(),
            !r.0.debugging(),
            r.0.handed() is None,
    {
        let (tx_body, rx_body) = oneshot_channel();
        (
            ReplySender {
                http_debug: false,
                sender: ReplySenderVariant::Oneshot(Some(tx_body)),
                handed: Ghost(None),
            },
            rx_body,
        )
    }

    /// A sender that answers through `sender`.
    pub fn for_channel(
        http_debug: bool,
        sender: futures::channel::oneshot::Sender<JsonResponse<R>>,
    ) -> (r: ReplySender<R>)
        ensures
            r.can_send(),
            r.channel() == Some(sender),
            !r.is_stream(),
            r.debugging() == http_debug,
            r.handed() is None,
    {
        ReplySender { http_debug, sender: ReplySenderVariant::Oneshot(Some(sender)), handed: Ghost(None) }
    }

    /// A sender that answers as a stream through `sender`.
    pub fn for_stream(http_debug: bool, sender: hyper::body::Sender) -> (r: ReplySender<R>)
        ensures
            r.is_stream(),
            !r.can_send(),
            r.debugging() == http_debug,
            r.handed() is None,
    {
        ReplySender { http_debug, sender: ReplySenderVariant::Stream(sender), handed: Ghost(None) }
    }

    /// Sends the response `r`.
    pub fn send(&mut self, r: JsonResponse<R>) -> (res: Result<(), FrontendError>)
        ensures
            sent(*old(self), *final(self), res),
            handed_over(*old(self), *final(self), r),
    {
        match &mut self.sender {
            ReplySenderVariant::Oneshot(sender) => match sender.take() {
                Some(sender) => {
                    match hand_over(sender, r, &mut self.handed) {
                        Ok(()) => Ok(()),
                        Err(_) => Err(FrontendError::BackendSend),
                    }
                },
                None => Err(FrontendError::NoSender),
            },
            ReplySenderVariant::Stream(_sender) => Err(FrontendError::NotImplemented),
        }
    }

    /// Sends the reply `r` as a success.
    pub fn ok(&mut self, r: R) -> (res: Result<(), FrontendError>)
        ensures
            sent(*old(self), *final(self), res),
            handed_over(*old(self), *final(self), JsonResponse::Success(r)),
    {
        self.send(JsonResponse::Success(r))
    }

    /// Sends an internal error, with the detail `se` when debugging.
    pub fn error(&mut self, se: String) -> (res: Result<(), FrontendError>)
        ensures
            sent(*old(self), *final(self), res),
            old(self).can_send() ==> (final(self).handed() matches Some((ch, resp)) && ch
                == old(self).channel()->0 && is_debug_error(resp, old(self).debugging(), se@)),
    {
        let response = JsonResponse::debug_error(self.http_debug, se.as_str());
        self.send(response)
    }

    /// Sends the reply of `rr`, or an internal error with its detail when
    /// debugging.
    pub fn send_result<E: std::fmt::Debug>(&mut self, rr: Result<R, E>) -> (res: Result<
        (),
        FrontendError,
    >)
        ensures
            sent(*old(self), *final(self), res),
            old(self).can_send() ==> (final(self).handed() matches Some((ch, resp)) && ch
                == old(self).channel()->0 && match rr {
                Ok(r) => resp == JsonResponse::Success(r),
                Err(_) => if old(self).debugging() {
                    resp matches JsonResponse::InternalServerError(Some(v)) && exists|t: Seq<char>|
                        v@ == json_quoted(t)
                } else {
                    resp == JsonResponse::<R>::InternalServerError(None)
                },
            }),
    {
        let response = match rr {
            Ok(r) => JsonResponse::Success(r),
            Err(e) => {
                if self.http_debug {
                    JsonResponse::internal_error(debug_text(&e).as_str())
                } else {
                    JsonResponse::empty_error()
                }
            },
        };
        self.send(response)
    }
}

/// What the listening loop learns about one incoming connection.
pub enum ListenEvent {
    /// Every listener has stopped.
    Closed,
    /// A connection could not be accepted.
    AcceptFailed,
    /// A connection was accepted but its peer address is unknown.
    PeerUnknown,
    /// A connection was accepted.
    Accepted,
}

/// What the listening loop does next.
pub enum ListenAction {
    /// Stop listening.
    Stop,
    /// Report a connection error of this kind and go on.
    Report(&'static str),
    /// Serve the connection.
    Serve,
}

/// One step of the listening loop: every event is numbered by the counter `n`,
/// which counts up (wrapping); the event decides the action.
pub fn listen_step(n: usize, event: ListenEvent) -> (r: (usize, ListenAction))
    ensures
        r.0 == (if n == usize::MAX {
            0
        } else {
            n + 1
        }),
        event is Closed <==> r.1 is Stop,
        event is Accepted <==> r.1 is Serve,
        event is AcceptFailed ==> (r.1 matches ListenAction::Report(k) && k@
            == "invalid connection"@),
        event is PeerUnknown ==> (r.1 matches ListenAction::Report(k) && k@
            == "invalid connection peer_addr"@),
{
    let n = n.wrapping_add(1);
    let action = match event {
        ListenEvent::Closed => ListenAction::Stop,
        ListenEvent::AcceptFailed => ListenAction::Report("invalid connection"),
        ListenEvent::PeerUnknown => ListenAction::Report("invalid connection peer_addr"),
        ListenEvent::Accepted => ListenAction::Serve,
    };
    (n, action)
}

} // verus!
