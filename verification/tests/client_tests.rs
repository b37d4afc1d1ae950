use frontend::client::{join_chunks, request_uri, ClientError, ClientRequest};
use std::time::Duration;

#[test]
fn get_from_url_parses_uri() {
    let req = ClientRequest::get_from_url("http://127.0.0.1:12001/ready").unwrap();
    assert_eq!(req.server_uri().to_string(), "http://127.0.0.1:12001/ready");
    let (_, body, connect, request) = req.into_parts();
    assert!(body.is_none() && connect.is_none() && request.is_none());
    assert!(matches!(ClientRequest::get_from_url("http://bad uri/"), Err(ClientError::Uri(_))));
}

#[test]
fn from_url_and_json_keeps_body() {
    let json = serde_json::to_string(&56u64);
    let req = ClientRequest::from_url_and_json("http://127.0.0.1:12001/", json).unwrap();
    let (_, body, _, _) = req.into_parts();
    assert_eq!(body, Some(b"56".to_vec()));
}

#[test]
fn from_url_and_json_reports_uri_first() {
    let bad_json: Result<String, serde_json::Error> = Err(serde_json::from_str::<u8>("x").unwrap_err());
    assert!(matches!(ClientRequest::from_url_and_json("http://bad uri/", bad_json), Err(ClientError::Uri(_))));
    let bad_json: Result<String, serde_json::Error> = Err(serde_json::from_str::<u8>("x").unwrap_err());
    assert!(matches!(ClientRequest::from_url_and_json("http://127.0.0.1/", bad_json), Err(ClientError::Json(_))));
}

#[test]
fn timeouts_are_kept() {
    let req = ClientRequest::get_from_url("http://127.0.0.1/")
        .unwrap()
        .with_connect_timeout(Duration::from_secs(2))
        .with_request_timeout(Duration::from_secs(5));
    let (_, _, connect, request) = req.into_parts();
    assert_eq!(connect, Some(Duration::from_secs(2)));
    assert_eq!(request, Some(Duration::from_secs(5)));
}

#[test]
fn request_uri_reports_bad_uri() {
    assert!(request_uri("http://127.0.0.1:12002/").is_ok());
    assert!(matches!(request_uri("not a uri"), Err(ClientError::Uri(_))));
}

#[test]
fn request_goes_to_parsed_uri() {
    let uri = request_uri("http://example.com").unwrap();
    assert_eq!(uri.to_string(), "http://example.com/");
    assert_eq!(uri.host(), Some("example.com"));
    let json = serde_json::to_string(&1u8);
    let req = ClientRequest::from_url_and_json("http://example.com:8080?a=1", json).unwrap();
    assert_eq!(req.server_uri().to_string(), "http://example.com:8080/?a=1");
    let (uri, _, _, _) = req.into_parts();
    assert_eq!(uri.port_u16(), Some(8080));
    assert_eq!(uri.query(), Some("a=1"));
}

#[test]
fn join_chunks_concatenates_until_first_error() {
    let ok: Vec<Result<Vec<u8>, u8>> = vec![Ok(b"ab".to_vec()), Ok(Vec::new()), Ok(b"c".to_vec())];
    assert_eq!(join_chunks(ok), Ok(b"abc".to_vec()));
    let bad: Vec<Result<Vec<u8>, u8>> = vec![Ok(b"ab".to_vec()), Err(1), Ok(b"c".to_vec()), Err(2)];
    assert_eq!(join_chunks(bad), Err(1));
    assert_eq!(join_chunks(Vec::<Result<Vec<u8>, u8>>::new()), Ok(Vec::new()));
}
