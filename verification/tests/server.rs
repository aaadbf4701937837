use std::io::{Error, ErrorKind, Read};

use http_server::client::{needs_server_error, Client, Step};
use http_server::encoding::Encoding;
use http_server::error::ServerError;
use http_server::headers::Header;
use http_server::request::{
    to_request_error, Headers, Method, Request, RequestError, RequestLine, Version,
};
use http_server::response::{write_header, Response, ResponseLine, Status};
use http_server::text::{split_ascii_whitespace, trim, trim_end_crlf};

fn request(line: &str, header_lines: &[&str]) -> Request {
    let request_line = RequestLine::from(line).ok().expect("request line");
    let mut headers = Headers::new();
    for l in header_lines {
        let done = headers.feed(l.len(), l).ok().expect("header line");
        assert!(!done);
    }
    assert_eq!(headers.feed(2, "\r\n").ok(), Some(true));
    Request::new(request_line, headers)
}

fn gunzip(bytes: &[u8]) -> Vec<u8> {
    let mut decoder = flate2::read::GzDecoder::new(bytes);
    let mut out = Vec::new();
    decoder.read_to_end(&mut out).unwrap();
    out
}

#[test]
fn header_names_are_recognised_in_any_case() {
    assert_eq!(Header::from("host"), Some(Header::Host));
    assert_eq!(Header::from("User-Agent"), Some(Header::UserAgent));
    assert_eq!(Header::from("ACCEPT"), Some(Header::Accept));
    assert_eq!(Header::from("accept-Encoding"), Some(Header::AcceptEncoding));
    assert_eq!(Header::from("Content-Length"), Some(Header::ContentLength));
    assert_eq!(Header::from("content-type"), Some(Header::ContentType));
    assert_eq!(Header::from("CONTENT-ENCODING"), Some(Header::ContentEncoding));
    assert_eq!(Header::from("Connection"), Some(Header::Connection));
    assert_eq!(Header::from("X-Custom"), None);
    assert_eq!(Header::from(" host"), None);
    assert_eq!(Header::from(""), None);
}

#[test]
fn header_names_as_bytes() {
    assert_eq!(Header::UserAgent.as_bytes(), b"User-Agent");
    assert_eq!(Header::ContentLength.as_bytes(), b"Content-Length");
    assert_eq!(Header::Host.as_bytes(), b"Host");
    for h in [
        Header::Host,
        Header::UserAgent,
        Header::Accept,
        Header::AcceptEncoding,
        Header::ContentLength,
        Header::ContentType,
        Header::ContentEncoding,
        Header::Connection,
    ] {
        let name = std::str::from_utf8(h.as_bytes()).unwrap();
        assert_eq!(Header::from(name), Some(h));
    }
}

#[test]
fn encoding_names() {
    assert_eq!(Encoding::GZip.as_str(), "gzip");
    assert_eq!(Encoding::from("gzip"), Some(Encoding::GZip));
    assert_eq!(Encoding::from("GZip"), Some(Encoding::GZip));
    assert_eq!(Encoding::from("deflate"), None);
    assert_eq!(Encoding::from(" gzip"), None);
}

#[test]
fn gzip_encoding_roundtrips() {
    let body = b"hello, world";
    let encoded = Encoding::GZip.encode(body).unwrap();
    assert_eq!(&encoded[..2], &[0x1f, 0x8b]);
    assert_ne!(encoded.as_slice(), body.as_slice());
    assert_eq!(gunzip(&encoded), body.to_vec());
}

#[test]
fn methods_and_versions() {
    assert_eq!(Method::from("GET").ok(), Some(Method::Get));
    assert_eq!(Method::from("  POST\t").ok(), Some(Method::Post));
    assert!(matches!(Method::from("get"), Err(RequestError::InvalidMethod)));
    assert!(matches!(Method::from("PUT"), Err(RequestError::InvalidMethod)));
    assert_eq!(Version::from("HTTP/1.1").ok(), Some(Version::Http11));
    assert_eq!(Version::from(" HTTP/1.1 ").ok(), Some(Version::Http11));
    assert!(matches!(Version::from("HTTP/1.0"), Err(RequestError::InvalidVersion)));
    assert_eq!(Version::Http11.as_bytes(), b"HTTP/1.1");
}

#[test]
fn request_line_parses() {
    let l = RequestLine::from("GET /index.html HTTP/1.1").ok().unwrap();
    assert_eq!(l.target, "/index.html");
    let r = request("POST \t /files/a  HTTP/1.1 ", &[]);
    assert_eq!(r.method(), Method::Post);
    assert_eq!(r.version(), Version::Http11);
    assert_eq!(r.target(), "/files/a");
}

#[test]
fn request_line_errors() {
    assert!(matches!(RequestLine::from(""), Err(RequestError::InvalidRequest)));
    assert!(matches!(RequestLine::from("   "), Err(RequestError::InvalidRequest)));
    assert!(matches!(RequestLine::from("GET"), Err(RequestError::InvalidRequest)));
    assert!(matches!(RequestLine::from("GET /"), Err(RequestError::InvalidRequest)));
    assert!(matches!(RequestLine::from("FETCH"), Err(RequestError::InvalidMethod)));
    assert!(matches!(RequestLine::from("FETCH / HTTP/1.1"), Err(RequestError::InvalidMethod)));
    assert!(matches!(RequestLine::from("GET / HTTP/2"), Err(RequestError::InvalidVersion)));
    assert!(matches!(RequestLine::from("GET / HTTP/1.1 extra"), Err(RequestError::InvalidRequest)));
}

#[test]
fn request_line_read() {
    assert!(matches!(RequestLine::read(0, ""), Err(RequestError::Disconnected)));
    let l = RequestLine::read(24, "GET /echo/x HTTP/1.1\r\n").ok().unwrap();
    assert_eq!(l.target, "/echo/x");
    let l = RequestLine::read(26, "GET /a HTTP/1.1\r\n\r\n").ok().unwrap();
    assert_eq!(l.target, "/a");
}

#[test]
fn header_block_feeds() {
    let mut h = Headers::new();
    assert_eq!(h.feed(20, "Host: localhost\r\n").ok(), Some(false));
    assert_eq!(h.feed(20, "user-agent:   curl/8.0  \r\n").ok(), Some(false));
    assert_eq!(h.feed(20, "Accept: a\r\n").ok(), Some(false));
    assert_eq!(h.feed(20, "ACCEPT:b").ok(), Some(false));
    assert_eq!(h.get(&Header::Host).unwrap(), &vec!["localhost".to_string()]);
    assert_eq!(h.get(&Header::UserAgent).unwrap(), &vec!["curl/8.0".to_string()]);
    assert_eq!(h.get(&Header::Accept).unwrap(), &vec!["a".to_string(), "b".to_string()]);
    assert!(h.get(&Header::Connection).is_none());
    assert!(matches!(h.feed(0, ""), Err(RequestError::Disconnected)));
    assert!(matches!(h.feed(10, "NoColon\r\n"), Err(RequestError::InvalidRequest)));
    assert!(matches!(h.feed(10, "X-Other: 1\r\n"), Err(RequestError::InvalidRequest)));
    assert_eq!(h.feed(2, "\r\n").ok(), Some(true));
    assert_eq!(h.feed(4, "\r\n\r\n").ok(), Some(true));
    assert_eq!(h.get(&Header::Accept).unwrap().len(), 2);
}

#[test]
fn header_value_keeps_later_colons() {
    let mut h = Headers::new();
    assert_eq!(h.feed(20, "Host: localhost:4221\r\n").ok(), Some(false));
    assert_eq!(h.get(&Header::Host).unwrap(), &vec!["localhost:4221".to_string()]);
}

#[test]
fn accepted_encodings_are_split_and_filtered() {
    let r = request("GET / HTTP/1.1", &["Accept-Encoding: invalid-1, gzip, invalid-2"]);
    assert_eq!(r.accepted_encodings(), vec![Encoding::GZip]);
    let r = request("GET / HTTP/1.1", &["Accept-Encoding: deflate", "Accept-Encoding: GZIP ,gzip"]);
    assert_eq!(r.accepted_encodings(), vec![Encoding::GZip, Encoding::GZip]);
    let r = request("GET / HTTP/1.1", &["Accept-Encoding: invalid"]);
    assert!(r.accepted_encodings().is_empty());
    let r = request("GET / HTTP/1.1", &[]);
    assert!(r.accepted_encodings().is_empty());
    assert!(r.body().is_none());
}

#[test]
fn status_bytes() {
    assert_eq!(Status::OK.as_bytes(), b"200");
    assert_eq!(Status::Created.as_bytes(), b"201");
    assert_eq!(Status::NotFound.as_bytes(), b"404");
    assert_eq!(Status::InternalServerError.as_bytes(), b"500");
    assert_eq!(Status::OK.reason(), b"OK");
    assert_eq!(Status::Created.reason(), b"Created");
    assert_eq!(Status::NotFound.reason(), b"Not Found");
    assert_eq!(Status::InternalServerError.reason(), b"Internal Server Error");
}

#[test]
fn response_line_bytes() {
    let mut out = b"x".to_vec();
    ResponseLine::new(Version::Http11, Status::NotFound).write_to(&mut out);
    assert_eq!(out, b"xHTTP/1.1 404 Not Found\r\n".to_vec());
}

#[test]
fn header_line_trims_value() {
    let mut out = Vec::new();
    write_header(&mut out, &Header::ContentType, "  text/plain \t");
    assert_eq!(out, b"Content-Type: text/plain\r\n".to_vec());
}

#[test]
fn response_bytes_without_body() {
    assert_eq!(Response::ok().to_bytes(), b"HTTP/1.1 200 OK\r\n\r\n".to_vec());
    assert_eq!(Response::created().to_bytes(), b"HTTP/1.1 201 Created\r\n\r\n".to_vec());
    assert_eq!(Response::not_found().to_bytes(), b"HTTP/1.1 404 Not Found\r\n\r\n".to_vec());
    assert_eq!(
        Response::server_error().to_bytes(),
        b"HTTP/1.1 500 Internal Server Error\r\n\r\n".to_vec()
    );
}

#[test]
fn response_bytes_with_body() {
    let r = Response::ok_with_body(
        vec![(Header::ContentType, "text/plain".to_string())],
        b"abc".to_vec(),
    );
    assert_eq!(
        r.to_bytes(),
        b"HTTP/1.1 200 OK\r\nContent-Type: text/plain\r\nContent-Length: 3\r\n\r\nabc".to_vec()
    );
    let r = Response::ok_with_body(Vec::new(), vec![7u8; 1234]);
    let bytes = r.to_bytes();
    let head = b"HTTP/1.1 200 OK\r\nContent-Length: 1234\r\n\r\n";
    assert_eq!(&bytes[..head.len()], head);
    assert_eq!(bytes.len(), head.len() + 1234);
    let r = Response::ok_with_body(Vec::new(), Vec::new());
    assert_eq!(r.to_bytes(), b"HTTP/1.1 200 OK\r\nContent-Length: 0\r\n\r\n".to_vec());
}

fn respond(step: Step) -> Response {
    match step {
        Step::Respond(r) => r,
        _ => panic!("expected a response"),
    }
}

#[test]
fn route_root() {
    let c = Client::new(None);
    let r = respond(c.serve(&request("GET / HTTP/1.1", &[])));
    assert_eq!(r.to_bytes(), b"HTTP/1.1 200 OK\r\n\r\n".to_vec());
}

#[test]
fn route_not_found() {
    let c = Client::new(None);
    let r = respond(c.serve(&request("GET /nothing HTTP/1.1", &[])));
    assert_eq!(r.to_bytes(), b"HTTP/1.1 404 Not Found\r\n\r\n".to_vec());
    let r = respond(c.serve(&request("GET /echo HTTP/1.1", &[])));
    assert_eq!(r.line.status, Status::NotFound);
}

#[test]
fn route_echo_plain() {
    let c = Client::new(None);
    let r = respond(c.serve(&request("GET /echo/abc HTTP/1.1", &[])));
    assert_eq!(
        r.to_bytes(),
        b"HTTP/1.1 200 OK\r\nContent-Type: text/plain\r\nContent-Length: 3\r\n\r\nabc".to_vec()
    );
    let r = respond(c.serve(&request("GET /echo/ HTTP/1.1", &[])));
    assert_eq!(r.body, Some(Vec::new()));
}

#[test]
fn route_echo_gzip() {
    let c = Client::new(None);
    let r = respond(c.serve(&request(
        "GET /echo/abc HTTP/1.1",
        &["Accept-Encoding: invalid-encoding-1, gzip, invalid-encoding-2"],
    )));
    assert_eq!(r.headers[0], (Header::ContentType, "text/plain".to_string()));
    assert_eq!(r.headers[1], (Header::ContentEncoding, "gzip".to_string()));
    let body = r.body.clone().unwrap();
    assert_eq!(gunzip(&body), b"abc".to_vec());
    let bytes = r.to_bytes();
    let head = format!(
        "HTTP/1.1 200 OK\r\nContent-Type: text/plain\r\nContent-Encoding: gzip\r\nContent-Length: {}\r\n\r\n",
        body.len()
    );
    assert_eq!(&bytes[..head.len()], head.as_bytes());
    assert_eq!(&bytes[head.len()..], body.as_slice());
}

#[test]
fn route_echo_unknown_encoding() {
    let c = Client::new(None);
    let r = respond(c.serve(&request("GET /echo/abc HTTP/1.1", &["Accept-Encoding: invalid"])));
    assert_eq!(r.headers.len(), 1);
    assert_eq!(r.body, Some(b"abc".to_vec()));
}

#[test]
fn route_user_agent() {
    let c = Client::new(None);
    let r = respond(c.serve(&request("GET /user-agent HTTP/1.1", &["User-Agent: foobar/1.2.3"])));
    assert_eq!(
        r.to_bytes(),
        b"HTTP/1.1 200 OK\r\nContent-Type: text/plain\r\nContent-Length: 12\r\n\r\nfoobar/1.2.3"
            .to_vec()
    );
    let missing = c.serve(&request("GET /user-agent HTTP/1.1", &[]));
    assert!(matches!(missing, Step::Fail(ServerError::InvalidRequest)));
    let twice = c.serve(&request("GET /user-agent HTTP/1.1", &["User-Agent: a", "User-Agent: b"]));
    assert!(matches!(twice, Step::Fail(ServerError::InvalidRequest)));
}

#[test]
fn route_files() {
    let none = Client::new(None);
    assert!(matches!(
        none.serve(&request("GET /files/a.txt HTTP/1.1", &[])),
        Step::Fail(ServerError::NoRootFolder)
    ));
    let c = Client::new(Some("/tmp/data".to_string()));
    match c.serve(&request("GET /files/a.txt HTTP/1.1", &[])) {
        Step::ReadFile { root_dir, file_name } => {
            assert_eq!(root_dir, "/tmp/data");
            assert_eq!(file_name, "a.txt");
        }
        _ => panic!("expected a read"),
    }
    assert!(matches!(
        c.serve(&request("POST /files/a.txt HTTP/1.1", &[])),
        Step::Fail(ServerError::InvalidRequest)
    ));
}

#[test]
fn file_outcomes() {
    let r = Client::file_read(Ok(b"data".to_vec()));
    assert_eq!(
        r.to_bytes(),
        b"HTTP/1.1 200 OK\r\nContent-Type: application/octet-stream\r\nContent-Length: 4\r\n\r\ndata"
            .to_vec()
    );
    let missing = std::io::Error::new(std::io::ErrorKind::NotFound, "missing");
    assert_eq!(Client::file_read(Err(missing)).line.status, Status::NotFound);
    let created = respond(Client::file_written(Ok(())));
    assert_eq!(created.to_bytes(), b"HTTP/1.1 201 Created\r\n\r\n".to_vec());
    let denied = std::io::Error::new(std::io::ErrorKind::PermissionDenied, "denied");
    assert!(matches!(Client::file_written(Err(denied)), Step::Fail(ServerError::Io(_))));
}

#[test]
fn server_error_decision() {
    assert!(!needs_server_error(&Ok(())));
    assert!(!needs_server_error(&Err(ServerError::Disconnected)));
    assert!(needs_server_error(&Err(ServerError::InvalidRequest)));
    assert!(needs_server_error(&Err(ServerError::NoRootFolder)));
    let e = std::io::Error::new(std::io::ErrorKind::Other, "x");
    assert!(needs_server_error(&Err(ServerError::Io(e))));
}

#[test]
fn io_errors_are_classified() {
    assert!(matches!(to_request_error(Error::from(ErrorKind::UnexpectedEof)), RequestError::Disconnected));
    assert!(matches!(to_request_error(Error::from(ErrorKind::ConnectionReset)), RequestError::Disconnected));
    assert!(matches!(to_request_error(Error::from(ErrorKind::BrokenPipe)), RequestError::Disconnected));
    assert!(matches!(to_request_error(Error::from(ErrorKind::InvalidData)), RequestError::Io(_)));
    assert!(matches!(ServerError::from(Error::from(ErrorKind::BrokenPipe)), ServerError::Disconnected));
    assert!(matches!(ServerError::from(Error::from(ErrorKind::TimedOut)), ServerError::Io(_)));
    assert!(matches!(
        ServerError::from_request_error(RequestError::InvalidVersion),
        ServerError::InvalidVersion
    ));
    assert!(matches!(
        ServerError::from_request_error(RequestError::Disconnected),
        ServerError::Disconnected
    ));
}

#[test]
fn text_helpers() {
    assert_eq!(trim("\u{a0} a b \u{3000}\t"), "a b");
    assert_eq!(trim("   "), "");
    assert_eq!(trim_end_crlf("a\r\n\r\n"), "a");
    assert_eq!(trim_end_crlf("a\n"), "a\n");
    assert_eq!(trim_end_crlf("a\r\nb"), "a\r\nb");
    assert_eq!(split_ascii_whitespace(" a\tbc \r\n d "), vec!["a", "bc", "d"]);
    assert!(split_ascii_whitespace(" \t ").is_empty());
    assert_eq!(split_ascii_whitespace("\u{a0}x"), vec!["\u{a0}x"]);
}

#[test]
fn stored_header_value_writes_back_unchanged() {
    let mut h = Headers::new();
    assert_eq!(h.feed(20, "Content-Type: \t text/html  \r\n").ok(), Some(false));
    let stored = h.get(&Header::ContentType).unwrap()[0].clone();
    assert_eq!(stored, "text/html");
    let mut a = Vec::new();
    write_header(&mut a, &Header::ContentType, &stored);
    let mut b = Vec::new();
    write_header(&mut b, &Header::ContentType, " \t text/html  ");
    assert_eq!(a, b);
    assert_eq!(trim(trim("  x  ")), trim("  x  "));
}

#[test]
fn request_line_written_and_read_back() {
    for (m, name) in [(Method::Get, "GET"), (Method::Post, "POST")] {
        let line = format!("{} /some/where?q=1 HTTP/1.1", name);
        let r = request(&line, &[]);
        assert_eq!(r.method(), m);
        assert_eq!(r.target(), "/some/where?q=1");
        assert_eq!(r.version(), Version::Http11);
    }
}

#[test]
fn request_line_whitespace_does_not_matter() {
    let a = RequestLine::from("GET / HTTP/1.1").ok().unwrap();
    let b = RequestLine::from("\t GET  /  HTTP/1.1\r\n").ok().unwrap();
    assert_eq!(a.target, b.target);
    let ra = request("GET / HTTP/1.1", &[]);
    let rb = request("\t GET  /  HTTP/1.1\r\n", &[]);
    assert_eq!(ra.method(), rb.method());
    assert_eq!(ra.version(), rb.version());
    assert!(matches!(RequestLine::from("GET / HTTP/2"), Err(RequestError::InvalidVersion)));
    assert!(matches!(RequestLine::from(" GET\t/\tHTTP/2 "), Err(RequestError::InvalidVersion)));
}

#[test]
fn echo_gzip_always_answers() {
    let c = Client::new(None);
    let r = respond(c.serve(&request("GET /echo/ HTTP/1.1", &["Accept-Encoding: gzip"])));
    assert_eq!(r.line.status, Status::OK);
    assert_eq!(gunzip(&r.body.clone().unwrap()), Vec::<u8>::new());
    let r = Encoding::GZip.encode(b"").unwrap();
    assert_eq!(gunzip(&r), Vec::<u8>::new());
}
