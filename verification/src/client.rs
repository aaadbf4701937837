//! How the server answers a request: the routes, what each one decides, and
//! what follows the file operations that a route asks for.
use vstd::prelude::*;
use vstd::utf8::encode_utf8;
use crate::encoding::{gzip_compressed, Encoding};
use crate::error::ServerError;
use crate::headers::Header;
use crate::request::{values_encodings, values_of, Method, Request, RequestView};
use crate::response::{Response, ResponseView, Status};
use crate::text::{starts_with, str_eq};

verus! {

/// What the server does next for a request.
pub enum Step {
    /// Send this response.
    Respond(Response),
    /// Read the file `file_name` under `root_dir`, then answer with
    /// [`Client::file_read`].
    ReadFile { root_dir: String, file_name: String },
    /// Write `contents` to the file `file_name` under `root_dir`, then answer
    /// with [`Client::file_written`].
    WriteFile { root_dir: String, file_name: String, contents: Vec<u8> },
    /// The request failed; the caller answers with a server error unless the
    /// peer has gone (see [`needs_server_error`]).
    Fail(ServerError),
}

pub enum StepView {
    Respond(ResponseView),
    ReadFile { root_dir: Seq<char>, file_name: Seq<char> },
    WriteFile { root_dir: Seq<char>, file_name: Seq<char>, contents: Seq<u8> },
    Fail(ServerError),
}

impl View for Step {
    type V = StepView;

    open spec fn view(&self) -> StepView {
        match self {
            Step::Respond(r) => StepView::Respond(r@),
            Step::ReadFile { root_dir, file_name } => StepView::ReadFile {
                root_dir: root_dir@,
                file_name: file_name@,
            },
            Step::WriteFile { root_dir, file_name, contents } => StepView::WriteFile {
                root_dir: root_dir@,
                file_name: file_name@,
                contents: contents@,
            },
            Step::Fail(e) => StepView::Fail(*e),
        }
    }
}

/// The media type of text bodies.
pub open spec fn text_plain() -> Seq<char> {
    "text/plain"@
}

/// The media type of file contents.
pub open spec fn octet_stream() -> Seq<char> {
    "application/octet-stream"@
}

/// The answer to `/echo/{msg}`: the message as a plain-text body, encoded
/// with the first encoding that the client accepts, if any.
pub open spec fn spec_echo(msg: Seq<char>, req: RequestView) -> StepView {
    let encodings = values_encodings(values_of(req.headers, Header::AcceptEncoding));
    if encodings.len() > 0 {
        StepView::Respond(
            ResponseView::with_body(
                seq![(Header::ContentType, text_plain()), (Header::ContentEncoding, encodings[0].name())],
                gzip_compressed(encode_utf8(msg)),
            ),
        )
    } else {
        StepView::Respond(
            ResponseView::with_body(seq![(Header::ContentType, text_plain())], encode_utf8(msg)),
        )
    }
}

/// The answer to `/user-agent`: the one `User-Agent` value as a plain-text
/// body; a request without exactly one such value is invalid.
pub open spec fn spec_user_agent(req: RequestView) -> StepView {
    let values = values_of(req.headers, Header::UserAgent);
    if values.len() == 1 {
        StepView::Respond(
            ResponseView::with_body(seq![(Header::ContentType, text_plain())], encode_utf8(values[0])),
        )
    } else {
        StepView::Fail(ServerError::InvalidRequest)
    }
}

/// The answer to `/files/{name}`: without a root folder nothing can be
/// served; `GET` reads the file, `POST` writes the request's body to it.
pub open spec fn spec_file(root: Option<Seq<char>>, name: Seq<char>, req: RequestView) -> StepView {
    match root {
        None => StepView::Fail(ServerError::NoRootFolder),
        Some(dir) => match req.line.method {
            Method::Get => StepView::ReadFile { root_dir: dir, file_name: name },
            Method::Post => match req.body {
                Some(contents) => StepView::WriteFile { root_dir: dir, file_name: name, contents },
                None => StepView::Fail(ServerError::InvalidRequest),
            },
        },
    }
}

/// Whether `s` begins with `p`.
pub open spec fn has_prefix(s: Seq<char>, p: Seq<char>) -> bool {
    p.len() <= s.len() && s.take(p.len() as int) == p
}

/// The routes: `/`, `/echo/{msg}`, `/user-agent` and `/files/{name}`; any
/// other target is not found.
pub open spec fn spec_serve(root: Option<Seq<char>>, req: RequestView) -> StepView {
    let t = req.line.target;
    if t == "/"@ {
        StepView::Respond(ResponseView::plain(Status::OK))
    } else if has_prefix(t, "/echo/"@) {
        spec_echo(t.skip(6), req)
    } else if t == "/user-agent"@ {
        spec_user_agent(req)
    } else if has_prefix(t, "/files/"@) {
        spec_file(root, t.skip(7), req)
    } else {
        StepView::Respond(ResponseView::plain(Status::NotFound))
    }
}

/// What `/echo/{msg}` answers, where the client accepts no known encoding,
/// is the message itself as a plain-text body.
pub proof fn lemma_echo_gives_back_message(root: Option<Seq<char>>, req: RequestView, msg: Seq<char>)
    requires
        req.line.target == "/echo/"@ + msg,
        values_encodings(values_of(req.headers, Header::AcceptEncoding)).len() == 0,
    ensures
        spec_serve(root, req) == StepView::Respond(
            ResponseView::with_body(seq![(Header::ContentType, text_plain())], encode_utf8(msg)),
        ),
{
    reveal_strlit("/");
    reveal_strlit("/echo/");
    let t = req.line.target;
    assert(t.len() >= 6);
    assert(t != "/"@);
    assert(t.take(6) =~= "/echo/"@);
    assert(t.skip(6) =~= msg);
}

/// `/user-agent` answers with the request's one `User-Agent` value, whole:
/// where the request holds exactly one value `v`, the answer is `200 OK`
/// with only `Content-Type: text/plain` and the UTF-8 bytes of `v` as body,
/// whatever characters `v` holds; with no value or several, it is an
/// invalid request.
pub proof fn lemma_user_agent_answer(root: Option<Seq<char>>, req: RequestView)
    requires
        req.line.target == "/user-agent"@,
    ensures
        values_of(req.headers, Header::UserAgent).len() == 1 ==> spec_serve(root, req)
            == StepView::Respond(
            ResponseView::with_body(
                seq![(Header::ContentType, text_plain())],
                encode_utf8(values_of(req.headers, Header::UserAgent)[0]),
            ),
        ),
        values_of(req.headers, Header::UserAgent).len() != 1 ==> spec_serve(root, req)
            == StepView::Fail(ServerError::InvalidRequest),
{
    reveal_strlit("/");
    reveal_strlit("/echo/");
    reveal_strlit("/user-agent");
    let t = req.line.target;
    assert(t != "/"@);
    assert(!has_prefix(t, "/echo/"@)) by {
        assert(t[1] != "/echo/"@[1]);
        assert(t.take(6)[1] == t[1]);
    }
}

/// `/files/{name}` acts on the whole rest of the target after `/files/`:
/// without a root folder it fails; with root folder `dir`, `GET` reads
/// exactly `(dir, name)`, and `POST` writes the request's body to exactly
/// `(dir, name)`, or is invalid without a body.
pub proof fn lemma_files_route(root: Option<Seq<char>>, req: RequestView, name: Seq<char>)
    requires
        req.line.target == "/files/"@ + name,
    ensures
        root is None ==> spec_serve(root, req) == StepView::Fail(ServerError::NoRootFolder),
        root matches Some(dir) ==> {
            &&& req.line.method is Get ==> spec_serve(root, req) == StepView::ReadFile {
                root_dir: dir,
                file_name: name,
            }
            &&& (req.line.method is Post && req.body is Some) ==> spec_serve(root, req)
                == StepView::WriteFile { root_dir: dir, file_name: name, contents: req.body->0 }
            &&& (req.line.method is Post && req.body is None) ==> spec_serve(root, req)
                == StepView::Fail(ServerError::InvalidRequest)
        },
{
    reveal_strlit("/");
    reveal_strlit("/echo/");
    reveal_strlit("/user-agent");
    reveal_strlit("/files/");
    let t = req.line.target;
    assert(t.len() >= 7);
    assert(t != "/"@);
    assert(t[1] == 'f');
    assert(!has_prefix(t, "/echo/"@)) by {
        assert(t.take(6)[1] == t[1]);
    }
    assert(t != "/user-agent"@) by {
        assert("/user-agent"@[1] == 'u');
    }
    assert(t.take(7) =~= "/files/"@);
    assert(t.skip(7) =~= name);
}

/// The state that answering requests needs: the folder that `/files/`
/// serves, if the server was given one.
pub struct Client {
    root_dir: Option<String>,
}

/// Whether a request whose handling ended with `outcome` is answered with a
/// server error: every failure but the peer's going away is.
pub open spec fn spec_needs_server_error(outcome: Result<(), ServerError>) -> bool {
    match outcome {
        Ok(()) => false,
        Err(ServerError::Disconnected) => false,
        Err(_) => true,
    }
}

pub fn needs_server_error(outcome: &Result<(), ServerError>) -> (r: bool)
    ensures
        r == spec_needs_server_error(*outcome),
{
    match outcome {
        Ok(()) => false,
        Err(ServerError::Disconnected) => false,
        Err(_) => true,
    }
}

fn text_plain_header() -> (r: (Header, String))
    ensures
        r.0 == Header::ContentType,
        r.1@ == text_plain(),
{
    (Header::ContentType, "text/plain".to_owned())
}

impl Client {
    /// The folder that `/files/` serves.
    pub closed spec fn root(&self) -> Option<Seq<char>> {
        match &self.root_dir {
            Some(s) => Some(s@),
            None => None,
        }
    }

    pub fn new(root_dir: Option<String>) -> (r: Client)
        ensures
            r.root() == match root_dir {
                Some(s) => Some(s@),
                None => None,
            },
    {
        Client { root_dir }
    }

    /// How the server answers `request`.
    pub fn serve(&self, request: &Request) -> (r: Step)
        ensures
            r@ == spec_serve(self.root(), request@),
    {
        let target = request.target();
        proof {
            reveal_strlit("/");
            reveal_strlit("/echo/");
            reveal_strlit("/user-agent");
            reveal_strlit("/files/");
        }
        let n = target.unicode_len();
        if str_eq(target, "/") {
            Step::Respond(Response::ok())
        } else if starts_with(target, "/echo/") {
            let msg = target.substring_char(6, n);
            assert(msg@ =~= target@.skip(6));
            Client::echo(msg, request)
        } else if str_eq(target, "/user-agent") {
            Client::user_agent(request)
        } else if starts_with(target, "/files/") {
            let file_name = target.substring_char(7, n);
            assert(file_name@ =~= target@.skip(7));
            self.file(file_name, request)
        } else {
            Step::Respond(Response::not_found())
        }
    }

    /// The answer to `/echo/{msg}`.
    pub fn echo(msg: &str, request: &Request) -> (r: Step)
        ensures
            r@ == spec_echo(msg@, request@),
    {
        let encodings = request.accepted_encodings();
        let mut headers: Vec<(Header, String)> = Vec::new();
        headers.push(text_plain_header());
        if encodings.len() > 0 {
            let encoding = encodings[0];
            match encoding.encode(msg.as_bytes()) {
                Ok(body) => {
                    headers.push((Header::ContentEncoding, encoding.as_str().to_owned()));
                    let r = Response::ok_with_body(headers, body);
                    assert(r@.headers =~= seq![
                        (Header::ContentType, text_plain()),
                        (Header::ContentEncoding, encodings@[0].name()),
                    ]);
                    Step::Respond(r)
                },
                Err(e) => Step::Fail(ServerError::from(e)),
            }
        } else {
            let r = Response::ok_with_body(headers, msg.as_bytes_vec());
            assert(r@.headers =~= seq![(Header::ContentType, text_plain())]);
            Step::Respond(r)
        }
    }

    /// The answer to `/user-agent`.
    pub fn user_agent(request: &Request) -> (r: Step)
        ensures
            r@ == spec_user_agent(request@),
    {
        match request.header(&Header::UserAgent) {
            Some(values) => {
                if values.len() == 1 {
                    let mut headers: Vec<(Header, String)> = Vec::new();
                    headers.push(text_plain_header());
                    assert(values@[0]@ == values_of(request@.headers, Header::UserAgent)[0]);
                    let r = Response::ok_with_body(headers, values[0].as_str().as_bytes_vec());
                    assert(r@.headers =~= seq![(Header::ContentType, text_plain())]);
                    Step::Respond(r)
                } else {
                    Step::Fail(ServerError::InvalidRequest)
                }
            },
            None => Step::Fail(ServerError::InvalidRequest),
        }
    }

    /// The answer to `/files/{file_name}`.
    pub fn file(&self, file_name: &str, request: &Request) -> (r: Step)
        ensures
            r@ == spec_file(self.root(), file_name@, request@),
    {
        match &self.root_dir {
            None => Step::Fail(ServerError::NoRootFolder),
            Some(root_dir) => match request.method() {
                Method::Get => Step::ReadFile {
                    root_dir: root_dir.clone(),
                    file_name: file_name.to_owned(),
                },
                Method::Post => match request.body() {
                    Some(contents) => Step::WriteFile {
                        root_dir: root_dir.clone(),
                        file_name: file_name.to_owned(),
                        contents: contents.clone(),
                    },
                    None => Step::Fail(ServerError::InvalidRequest),
                },
            },
        }
    }

    /// The answer once the file of a `GET /files/` request was read: its
    /// contents as a binary body, or not found where the read failed.
    pub fn file_read(result: Result<Vec<u8>, std::io::Error>) -> (r: Response)
        ensures
            match result {
                Ok(contents) => r@ == ResponseView::with_body(
                    seq![(Header::ContentType, octet_stream())],
                    contents@,
                ),
                Err(_) => r@ == ResponseView::plain(Status::NotFound),
            },
    {
        match result {
            Ok(contents) => {
                let mut headers: Vec<(Header, String)> = Vec::new();
                headers.push((Header::ContentType, "application/octet-stream".to_owned()));
                let r = Response::ok_with_body(headers, contents);
                assert(r@.headers =~= seq![(Header::ContentType, octet_stream())]);
                r
            },
            Err(_) => Response::not_found(),
        }
    }

    /// The step once the file of a `POST /files/` request was written:
    /// created, or the failure of the write.
    pub fn file_written(result: Result<(), std::io::Error>) -> (r: Step)
        ensures
            result is Ok ==> r@ == StepView::Respond(ResponseView::plain(Status::Created)),
            result is Err ==> (r matches Step::Fail(e) && (e is Disconnected || (e matches ServerError::Io(x)
                && result == Err::<(), std::io::Error>(x)))),
    {
        match result {
            Ok(()) => Step::Respond(Response::created()),
            Err(e) => Step::Fail(ServerError::from(e)),
        }
    }
}

} // verus!
