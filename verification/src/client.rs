use vstd::prelude::*;
use vstd::string::StrSliceExecFns;
use vstd::utf8::*;

verus! {

/// The outside type `hyper::Uri`, declared so that it can be carried; Verus sees nothing inside it.
#[verifier::external_type_specification]
#[verifier::external_body]
pub struct ExUri(hyper::Uri);

/// The outside type `hyper::http::uri::InvalidUri`, declared so that it can be carried; Verus sees nothing inside it.
#[verifier::external_type_specification]
#[verifier::external_body]
pub struct ExInvalidUri(hyper::http::uri::InvalidUri);

/// The outside type `hyper::http::Error`, declared so that it can be carried; Verus sees nothing inside it.
#[verifier::external_type_specification]
#[verifier::external_body]
pub struct ExHttpError(hyper::http::Error);

/// What `hyper::Uri`'s parser makes of the text `input`: the URI, or why the
/// text is refused.
pub uninterp spec fn uri_parse(input: Seq<char>) -> Result<hyper::Uri, hyper::http::uri::InvalidUri>;

/// Whether `hyper::Uri`'s parser accepts the text `input`.
pub open spec fn uri_parses(input: Seq<char>) -> bool {
    uri_parse(input) is Ok
}

/// The URI that `hyper::Uri`'s parser makes of the text `input`, where it
/// accepts it.
pub open spec fn parsed_uri(input: Seq<char>) -> hyper::Uri {
    match uri_parse(input) {
        Ok(u) => u,
        Err(_) => arbitrary(),
    }
}

/// Calls `str::parse::<hyper::Uri>`. Claimed: its result is the name
/// `uri_parse` applied to the text; the parser reads nothing but the text.
#[verifier::external_body]
fn parse_uri(input: &str) -> (r: Result<hyper::Uri, hyper::http::uri::InvalidUri>)
    ensures
        r == uri_parse(input@),
{
    input.parse()
}

/// Why a client request failed.
#[derive(Debug)]
pub enum ClientError {
    Json(serde_json::Error),
    Uri(hyper::http::uri::InvalidUri),
    Request(hyper::http::Error),
    Hyper(hyper::Error),
    Timeout(String),
}

/// The URI that a request to `url` goes to.
pub fn request_uri(url: &str) -> (r: Result<hyper::Uri, ClientError>)
    ensures
        r is Ok <==> uri_parses(url@),
        r matches Ok(u) ==> u == parsed_uri(url@),
        !uri_parses(url@) ==> r matches Err(ClientError::Uri(_)),
        r matches Err(ClientError::Uri(e)) ==> uri_parse(url@) == Err::<hyper::Uri, _>(e),
{
    match parse_uri(url) {
        Ok(uri) => Ok(uri),
        Err(e) => Err(ClientError::Uri(e)),
    }
}

/// The body that arrives in these chunks: their bytes one after another, or
/// the error of the first chunk that failed.
pub open spec fn chunks_joined<E>(chunks: Seq<Result<Vec<u8>, E>>) -> Result<Seq<u8>, E>
    decreases chunks.len(),
{
    if chunks.len() == 0 {
        Ok(Seq::empty())
    } else {
        match chunks_joined(chunks.drop_last()) {
            Err(e) => Err(e),
            Ok(front) => match chunks.last() {
                Ok(b) => Ok(front + b@),
                Err(e) => Err(e),
            },
        }
    }
}

/// Once the chunks read so far have failed, what follows changes nothing.
proof fn lemma_joined_failure_stays<E>(chunks: Seq<Result<Vec<u8>, E>>, k: int)
    requires
        0 <= k <= chunks.len(),
        chunks_joined(chunks.take(k)) is Err,
    ensures
        chunks_joined(chunks) == chunks_joined(chunks.take(k)),
    decreases chunks.len(),
{
    if k == chunks.len() {
        assert(chunks.take(k) =~= chunks);
    } else {
        assert(chunks.drop_last().take(k) =~= chunks.take(k));
        lemma_joined_failure_stays(chunks.drop_last(), k);
    }
}

/// The bytes of each chunk, in order (none for a failed chunk).
spec fn chunk_bytes<E>(chunks: Seq<Result<Vec<u8>, E>>) -> Seq<Seq<u8>> {
    chunks.map_values(|c: Result<Vec<u8>, E>| match c {
        Ok(b) => b@,
        Err(_) => Seq::<u8>::empty(),
    })
}

/// When every chunk arrived, the body is all of their bytes, one chunk after
/// another, however long.
pub proof fn law_joined_body_is_all_chunks<E>(chunks: Seq<Result<Vec<u8>, E>>)
    requires
        forall|i: int| 0 <= i < chunks.len() ==> #[trigger] chunks[i] is Ok,
    ensures
        chunks_joined(chunks) == Ok::<Seq<u8>, E>(
            chunks.map_values(
                |c: Result<Vec<u8>, E>|
                    match c {
                        Ok(b) => b@,
                        Err(_) => Seq::<u8>::empty(),
                    },
            ).flatten(),
        ),
    decreases chunks.len(),
{
    let m = chunk_bytes(chunks);
    m.lemma_flatten_and_flatten_alt_are_equivalent();
    if chunks.len() > 0 {
        let d = chunks.drop_last();
        assert forall|i: int| 0 <= i < d.len() implies #[trigger] d[i] is Ok by {
            assert(d[i] == chunks[i]);
        }
        law_joined_body_is_all_chunks(d);
        assert(m.drop_last() =~= chunk_bytes(d));
        chunk_bytes(d).lemma_flatten_and_flatten_alt_are_equivalent();
        assert(chunks[chunks.len() - 1] is Ok);
    }
}

/// Where a chunk failed, the body fails with the error of the first chunk that
/// failed, whatever follows it.
pub proof fn law_joined_body_fails_at_first_error<E>(chunks: Seq<Result<Vec<u8>, E>>, k: int)
    requires
        0 <= k < chunks.len(),
        chunks[k] is Err,
        forall|i: int| 0 <= i < k ==> #[trigger] chunks[i] is Ok,
    ensures
        chunks_joined(chunks) == Err::<Seq<u8>, E>(chunks[k]->Err_0),
{
    let front = chunks.take(k);
    assert forall|i: int| 0 <= i < front.len() implies #[trigger] front[i] is Ok by {
        assert(front[i] == chunks[i]);
    }
    law_joined_body_is_all_chunks(front);
    let upto = chunks.take(k + 1);
    assert(upto.drop_last() =~= front);
    assert(upto.last() == chunks[k]);
    lemma_joined_failure_stays(chunks, k + 1);
}

/// Joins the chunks of a body, stopping at the first that failed.
pub fn join_chunks<E>(chunks: Vec<Result<Vec<u8>, E>>) -> (r: Result<Vec<u8>, E>)
    ensures
        match r {
            Ok(v) => chunks_joined(chunks@) == Ok::<Seq<u8>, E>(v@),
            Err(e) => chunks_joined(chunks@) == Err::<Seq<u8>, E>(e),
        },
{
    let ghost all = chunks@;
    let mut acc: Vec<u8> = Vec::new();
    assert(all.take(0) =~= Seq::<Result<Vec<u8>, E>>::empty());
    for res in it: chunks.into_iter()
        invariant
            it.seq() == all,
            chunks_joined(all.take(it.index() as int)) == Ok::<Seq<u8>, E>(acc@),
    {
        let ghost i = it.index() as int;
        assert(all.take(i + 1).drop_last() =~= all.take(i));
        assert(all.take(i + 1).last() == all[i]);
        match res {
            Ok(bytes) => {
                let mut b = bytes;
                acc.append(&mut b);
            },
            Err(e) => {
                proof {
                    lemma_joined_failure_stays(all, i + 1);
                }
                return Err(e);
            },
        }
    }
    assert(all.take(all.len() as int) =~= all);
    Ok(acc)
}

/// A request to a server: a `GET`, or a `POST` of a JSON body, with optional
/// time limits for connecting and for the whole request.
pub struct ClientRequest {
    server_uri: hyper::Uri,
    json: Option<Vec<u8>>,
    connect_timeout: Option<std::time::Duration>,
    request_timeout: Option<std::time::Duration>,
}

impl ClientRequest {
    /// The URI the request goes to.
    pub closed spec fn target(&self) -> hyper::Uri {
        self.server_uri
    }

    /// The JSON body, for a `POST`.
    pub closed spec fn body(&self) -> Option<Seq<u8>> {
        match self.json {
            Some(v) => Some(v@),
            None => None,
        }
    }

    /// The time limit for connecting.
    pub closed spec fn connect_limit(&self) -> Option<std::time::Duration> {
        self.connect_timeout
    }

    /// The time limit for the whole request.
    pub closed spec fn request_limit(&self) -> Option<std::time::Duration> {
        self.request_timeout
    }

    /// A `POST` of the JSON text `json` to `url`, with no time limits. `json` is
    /// what serializing the request gave; a bad URI is reported before a
    /// failed serialization.
    pub fn from_url_and_json(url: &str, json: Result<String, serde_json::Error>) -> (r: Result<
        ClientRequest,
        ClientError,
    >)
        ensures
            !uri_parses(url@) <==> r matches Err(ClientError::Uri(_)),
            r matches Err(ClientError::Uri(e)) ==> uri_parse(url@) == Err::<hyper::Uri, _>(e),
            uri_parses(url@) ==> match json {
                Err(e) => r matches Err(ClientError::Json(e2)) && e2 == e,
                Ok(s) => r matches Ok(q) && q.target() == parsed_uri(url@) && q.body() == Some(encode_utf8(s@))
                    && q.connect_limit() is None && q.request_limit() is None,
            },
    {
        let server_uri = match parse_uri(url) {
            Ok(uri) => uri,
            Err(e) => {
                return Err(ClientError::Uri(e));
            },
        };
        let text = match json {
            Ok(text) => text,
            Err(e) => {
                return Err(ClientError::Json(e));
            },
        };
        let bytes = text.as_str().as_bytes_vec();
        Ok(ClientRequest { server_uri, json: Some(bytes), connect_timeout: None, request_timeout: None })
    }

    /// A `GET` of `url`, with no time limits.
    pub fn get_from_url(url: &str) -> (r: Result<ClientRequest, ClientError>)
        ensures
            !uri_parses(url@) <==> r matches Err(ClientError::Uri(_)),
            r matches Err(ClientError::Uri(e)) ==> uri_parse(url@) == Err::<hyper::Uri, _>(e),
            uri_parses(url@) ==> (r matches Ok(q) && q.target() == parsed_uri(url@) && q.body() is None && q.connect_limit() is None
                && q.request_limit() is None),
    {
        let server_uri = match parse_uri(url) {
            Ok(uri) => uri,
            Err(e) => {
                return Err(ClientError::Uri(e));
            },
        };
        Ok(ClientRequest { server_uri, json: None, connect_timeout: None, request_timeout: None })
    }

    /// The same request, with `tm` as the time limit for connecting.
    pub fn with_connect_timeout(self, tm: std::time::Duration) -> (r: ClientRequest)
        ensures
            r.connect_limit() == Some(tm),
            r.target() == self.target(),
            r.body() == self.body(),
            r.request_limit() == self.request_limit(),
    {
        let mut s = self;
        s.connect_timeout = Some(tm);
        s
    }

    /// The same request, with `tm` as the time limit for the whole request.
    pub fn with_request_timeout(self, tm: std::time::Duration) -> (r: ClientRequest)
        ensures
            r.request_limit() == Some(tm),
            r.target() == self.target(),
            r.body() == self.body(),
            r.connect_limit() == self.connect_limit(),
    {
        let mut s = self;
        s.request_timeout = Some(tm);
        s
    }

    /// The URI the request goes to.
    pub fn server_uri(&self) -> (r: &hyper::Uri)
        ensures
            *r == self.target(),
    {
        &self.server_uri
    }

    /// The parts of the request, for sending it: URI, JSON body, time limit
    /// for connecting, time limit for the whole request.
    pub fn into_parts(self) -> (r: (
        hyper::Uri,
        Option<Vec<u8>>,
        Option<std::time::Duration>,
        Option<std::time::Duration>,
    ))
        ensures
            r.0 == self.target(),
            r.1 matches Some(v) ==> self.body() == Some(v@),
            r.1 is None <==> self.body() is None,
            r.2 == self.connect_limit(),
            r.3 == self.request_limit(),
    {
        (self.server_uri, self.json, self.connect_timeout, self.request_timeout)
    }
}

} // verus!
