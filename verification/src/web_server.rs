//! The connection handler: what a worker does with the bytes that arrive
//! on one connection.
//!
//! The worker itself performs no input or output. Each step takes what was
//! read, from the socket or from a file, and says what is to be done next:
//! read on, send a response, read a file, or stop.
//!
//! A message that is complete is parsed, resolved and answered within one
//! step, so a connection rests only where it waits for input: while it
//! reads from the socket, and while the content of a file is awaited. A
//! request that does not parse and a request that no endpoint answers leave
//! the step with their canned responses, and the connection reads on.
use crate::endpoint::{
    resolve, EndpointModel, EndpointProvider, EndpointType, KindModel,
};
use crate::parser::{parse, parse_spec};
use crate::path::{remap, remap_spec};
use crate::request_helper::RequestParameter;
use crate::resource::{accepted, handler_returns, ResourceHandler};
use crate::response::{
    lemma_built_in_reply, reply, reply_given, ResponseError, ResponseHandler, Status,
};
use crate::text::{
    append, bytes_eq, bytes_of, ends_with, lemma_ascii_bytes, lit, split, split_on, to_vec, trim,
    trimmed, views_of,
};
use crate::types::{HttpMethod, HttpRequest, RequestModel};
use vstd::prelude::*;
use vstd::slice::slice_subrange;
use vstd::utf8::valid_utf8;

verus! {

/// The number of bytes that are asked of the socket at a time.
pub const MESSAGE_SIZE: usize = 1024;

/// `core::str::Utf8Error`, the error of `core::str::from_utf8`. It is
/// carried through; nothing is read from it.
#[verifier::external_type_specification]
#[verifier::external_body]
pub struct ExUtf8Error(core::str::Utf8Error);

/// `core::str::from_utf8`: the bytes as a string slice if, and only if,
/// they are well-formed UTF-8; the string slice then has exactly these
/// bytes.
pub assume_specification[ core::str::from_utf8 ](v: &[u8]) -> (r: Result<
    &str,
    core::str::Utf8Error,
>)
    ensures
        r is Ok <==> valid_utf8(v@),
        r matches Ok(s) ==> bytes_of(s) == v@,
;

/// A file that is to be read for a response, and whether the client takes
/// gzip.
#[derive(Debug)]
pub struct PendingFile {
    pub path: Vec<u8>,
    pub compress: bool,
}

/// What is to be done next for a connection.
#[derive(Debug)]
pub enum Action {
    /// Nothing is to be sent yet: read on.
    Continue,
    /// Send these bytes, then read on.
    Send(Vec<u8>),
    /// Read this file, and hand in what it held.
    ReadFile(PendingFile),
    /// The response could not be encoded: nothing is sent, the connection
    /// ends.
    Fail(ResponseError),
    /// The connection has ended.
    Close,
}

/// The mathematical content of an action.
pub enum ActionModel {
    Continue,
    Send(Seq<u8>),
    ReadFile(Seq<u8>, bool),
    Fail(ResponseError),
    Close,
}

impl View for Action {
    type V = ActionModel;

    open spec fn view(&self) -> ActionModel {
        match self {
            Action::Continue => ActionModel::Continue,
            Action::Send(bytes) => ActionModel::Send(bytes@),
            Action::ReadFile(file) => ActionModel::ReadFile(file.path@, file.compress),
            Action::Fail(e) => ActionModel::Fail(*e),
            Action::Close => ActionModel::Close,
        }
    }
}

/// Where the content of a response comes from.
#[derive(Debug)]
pub enum Content {
    /// No endpoint answers the request.
    Missing,
    /// The file of this path.
    File(Vec<u8>),
    /// This body, which a handler gave.
    Body(Vec<u8>),
}

/// Where the content for a path comes from, as the endpoints say.
pub enum SourceModel {
    Missing,
    File(Seq<u8>),
    Handler(Seq<u8>),
}

/// The source of the content for a GET request to `path`: the file of a
/// static endpoint, the file that the path names below a mounted directory,
/// or the handler of a resource.
pub open spec fn source_of(endpoints: Seq<EndpointModel>, path: Seq<u8>) -> SourceModel {
    match resolve(endpoints, path, HttpMethod::Get) {
        None => SourceModel::Missing,
        Some(e) => match e.kind {
            KindModel::StaticAsset(asset_path) => SourceModel::File(asset_path),
            KindModel::Assets(asset_base) => SourceModel::File(remap_spec(path, e.path, asset_base)),
            KindModel::Resource(id) => SourceModel::Handler(id),
        },
    }
}

/// The path that is resolved: a path of more than one byte loses one
/// trailing separator.
pub open spec fn normalized(path: Seq<u8>) -> Seq<u8> {
    if path.len() > 1 && path.last() == 47 {
        path.drop_last()
    } else {
        path
    }
}

/// One of the comma-separated tokens of the value, trimmed, is `gzip`.
pub open spec fn names_gzip(value: Seq<u8>) -> bool {
    exists|i: int|
        0 <= i < split(value, bytes_of(",")).len() && trim(
            #[trigger] split(value, bytes_of(","))[i],
        ) == bytes_of("gzip")
}

/// The request says that the client takes gzip.
pub open spec fn wants_gzip(headers: Map<Seq<u8>, Seq<u8>>) -> bool {
    headers.dom().contains(bytes_of("accept-encoding")) && names_gzip(
        headers[bytes_of("accept-encoding")],
    )
}

/// The action sends the response for this status and body. Only where the
/// body is to be compressed and the compressor gives no stream for it, the
/// action reports the failure instead, and nothing is sent.
pub open spec fn sends(compress: bool, status: Status, body: Option<Seq<u8>>, action: ActionModel) -> bool {
    if reply_given(compress, body) {
        action == ActionModel::Send(reply(compress, status, body))
    } else {
        action is Fail
    }
}

/// The action answers a GET request: not found where no endpoint answers,
/// the file to read where an endpoint names one, and the body that the
/// handler gave for the parameters it accepts where the endpoint is a
/// resource.
pub open spec fn answers_get<F: Fn(&Vec<RequestParameter>) -> Vec<u8>>(
    endpoints: Seq<EndpointModel>,
    handlers: Map<Seq<u8>, ResourceHandler<F>>,
    compress: bool,
    request: RequestModel,
    action: ActionModel,
) -> bool {
    match source_of(endpoints, normalized(request.general.path)) {
        SourceModel::Missing => action == ActionModel::Send(reply(compress, Status::NotFound, None)),
        SourceModel::File(p) => action == ActionModel::ReadFile(p, compress),
        SourceModel::Handler(id) => exists|body: Seq<u8>|
            #[trigger] handler_returns(
                handlers[id].function(),
                accepted(handlers[id].schema(), request.general.params),
                body,
            ) && sends(compress, Status::Success, Some(body), action),
    }
}

/// The action answers the framed message `raw`: a bad request where it
/// does not parse, not found for any method but GET, and otherwise the
/// answer to the GET request.
pub open spec fn answers<F: Fn(&Vec<RequestParameter>) -> Vec<u8>>(
    endpoints: Seq<EndpointModel>,
    handlers: Map<Seq<u8>, ResourceHandler<F>>,
    raw: Seq<u8>,
    action: ActionModel,
) -> bool {
    match parse_spec(raw) {
        Err(_) => action == ActionModel::Send(reply(false, Status::BadRequest, None)),
        Ok(request) => {
            let compress = wants_gzip(request.headers);
            if request.general.method != HttpMethod::Get {
                action == ActionModel::Send(reply(compress, Status::NotFound, None))
            } else {
                answers_get(endpoints, handlers, compress, request, action)
            }
        },
    }
}

/// The action answers with what the file held: the content where it could
/// be read, not found where it could not.
pub open spec fn answers_file(compress: bool, content: Option<Seq<u8>>, action: ActionModel) -> bool {
    match content {
        Some(c) => sends(compress, Status::Success, Some(c), action),
        None => action == ActionModel::Send(reply(compress, Status::NotFound, None)),
    }
}

/// Where a connection stands.
#[derive(Debug, Clone, Copy)]
pub enum ConnectionState {
    /// Bytes are gathered until a message is complete.
    Reading,
    /// A request was resolved to a file; its content is awaited. The flag
    /// says whether the client takes gzip.
    Resolved(bool),
    /// The connection has ended.
    Closed,
}

/// What reaches a connection.
#[derive(Debug)]
pub enum Input<'a> {
    /// Bytes that were read from the socket; none when the peer has closed.
    Read(&'a [u8]),
    /// What the file held that was to be read, or nothing if it could not
    /// be read.
    FileRead(Option<&'a [u8]>),
    /// Reading from or writing to the socket has failed.
    Failed,
}

/// The mathematical content of an input.
pub enum InputModel {
    Read(Seq<u8>),
    FileRead(Option<Seq<u8>>),
    Failed,
}

impl<'a> View for Input<'a> {
    type V = InputModel;

    open spec fn view(&self) -> InputModel {
        match self {
            Input::Read(chunk) => InputModel::Read(chunk@),
            Input::FileRead(Some(content)) => InputModel::FileRead(Some(content@)),
            Input::FileRead(None) => InputModel::FileRead(None),
            Input::Failed => InputModel::Failed,
        }
    }
}

/// The mathematical content of a connection: where it stands, and the
/// bytes gathered for the message that is not complete yet.
pub struct ConnectionModel {
    pub state: ConnectionState,
    pub received: Seq<u8>,
}

/// A connection: its state and the bytes gathered so far.
#[derive(Debug)]
pub struct Connection {
    state: ConnectionState,
    received: Vec<u8>,
}

/// The terminator of a message: an empty line.
pub open spec fn terminator() -> Seq<u8> {
    bytes_of("\r\n\r\n")
}

/// Where a connection stands once the action has been chosen: a file is
/// awaited, the connection has ended, or the next message is read. The
/// gathered bytes are given up in each case.
pub open spec fn state_after(action: ActionModel) -> ConnectionModel {
    ConnectionModel {
        state: match action {
            ActionModel::ReadFile(_, compress) => ConnectionState::Resolved(compress),
            ActionModel::Fail(_) => ConnectionState::Closed,
            ActionModel::Close => ConnectionState::Closed,
            _ => ConnectionState::Reading,
        },
        received: Seq::empty(),
    }
}

/// One step of a connection. While reading, bytes are gathered until they
/// end with the terminator, and the complete message is answered; bytes
/// that are not well-formed UTF-8 are answered as a bad request. While a
/// file is awaited, what it held is answered. The end of the peer's
/// stream, a failure of the socket, and an input that the state does not
/// expect end the connection.
pub open spec fn transition<F: Fn(&Vec<RequestParameter>) -> Vec<u8>>(
    endpoints: Seq<EndpointModel>,
    handlers: Map<Seq<u8>, ResourceHandler<F>>,
    before: ConnectionModel,
    input: InputModel,
    after: ConnectionModel,
    action: ActionModel,
) -> bool {
    match (before.state, input) {
        (ConnectionState::Reading, InputModel::Read(chunk)) => {
            let gathered = before.received + chunk;
            if chunk.len() == 0 {
                action == ActionModel::Close && after == state_after(action)
            } else if !valid_utf8(gathered) {
                action == ActionModel::Send(reply(false, Status::BadRequest, None)) && after
                    == state_after(action)
            } else if !terminator().is_suffix_of(gathered) {
                action == ActionModel::Continue && after == (ConnectionModel {
                    state: ConnectionState::Reading,
                    received: gathered,
                })
            } else {
                answers(endpoints, handlers, gathered, action) && after == state_after(action)
            }
        },
        (ConnectionState::Resolved(compress), InputModel::FileRead(content)) => answers_file(
            compress,
            content,
            action,
        ) && after == state_after(action),
        _ => action == ActionModel::Close && after == state_after(action),
    }
}

impl View for Connection {
    type V = ConnectionModel;

    closed spec fn view(&self) -> ConnectionModel {
        ConnectionModel { state: self.state, received: self.received@ }
    }
}

impl Connection {
    /// A connection that reads, with nothing gathered yet.
    pub fn new() -> (r: Connection)
        ensures
            r@ == (ConnectionModel { state: ConnectionState::Reading, received: Seq::empty() }),
    {
        Connection { state: ConnectionState::Reading, received: Vec::new() }
    }

    /// Where the connection stands.
    pub fn state(&self) -> (r: ConnectionState)
        ensures
            r == self@.state,
    {
        self.state
    }

    /// Whether the connection has ended.
    pub fn is_closed(&self) -> (r: bool)
        ensures
            r == (self@.state is Closed),
    {
        match self.state {
            ConnectionState::Closed => true,
            _ => false,
        }
    }

    /// The number of bytes gathered so far.
    pub fn buffered(&self) -> (r: usize)
        ensures
            r == self@.received.len(),
    {
        self.received.len()
    }
}

/// The action that sends the response of this encoder, or reports that it
/// could not be encoded.
pub fn respond(compress: bool, status: Status, body: Option<&[u8]>) -> (r: Action)
    ensures
        sends(
            compress,
            status,
            match body {
                Some(b) => Some(b@),
                None => None,
            },
            r@,
        ),
        body is None ==> r@ == ActionModel::Send(reply(compress, status, None)),
{
    let response_handler = ResponseHandler::for_client(compress);
    let none: Vec<crate::types::Header> = Vec::new();
    proof {
        lemma_built_in_reply(
            *response_handler,
            compress,
            status,
            match body {
                Some(b) => Some(b@),
                None => None,
            },
        );
    }
    match response_handler.encode(status, none.as_slice(), body) {
        Ok(bytes) => Action::Send(bytes),
        Err(e) => Action::Fail(e),
    }
}

/// Whether one of the comma-separated tokens of the value is `gzip`.
pub fn value_names_gzip(value: &[u8]) -> (r: bool)
    ensures
        r == names_gzip(value@),
{
    proof {
        reveal_strlit(",");
        lemma_ascii_bytes(",");
    }
    let tokens = split_on(value, lit(","));
    let ghost all = views_of(tokens@);
    let mut i: usize = 0;
    while i < tokens.len()
        invariant
            i <= tokens.len(),
            all == views_of(tokens@),
            all == split(value@, bytes_of(",")),
            forall|j: int| 0 <= j < i ==> trim(#[trigger] all[j]) != bytes_of("gzip"),
        decreases tokens.len() - i,
    {
        if bytes_eq(trimmed(tokens[i]), lit("gzip")) {
            assert(trim(all[i as int]) == bytes_of("gzip"));
            return true;
        }
        i += 1;
    }
    false
}

/// Whether the request says that the client takes gzip.
pub fn accepts_gzip(request: &HttpRequest) -> (r: bool)
    ensures
        r == wants_gzip(request@.headers),
{
    match request.headers.get(lit("accept-encoding")) {
        Some(value) => value_names_gzip(value.as_slice()),
        None => false,
    }
}

/// The path without its one trailing separator.
pub fn normalize(path: &[u8]) -> (r: &[u8])
    ensures
        r@ == normalized(path@),
{
    if path.len() > 1 && path[path.len() - 1] == 47 {
        slice_subrange(path, 0, path.len() - 1)
    } else {
        path
    }
}

/// The worker for one connection, with its copy of the endpoints.
pub struct WebServerThreadHandler<F: Fn(&Vec<RequestParameter>) -> Vec<u8>> {
    endpoint_handler: EndpointProvider<F>,
}

impl<F: Fn(&Vec<RequestParameter>) -> Vec<u8>> WebServerThreadHandler<F> {
    /// The endpoints against which the worker resolves.
    pub closed spec fn endpoints(&self) -> Seq<EndpointModel> {
        self.endpoint_handler.endpoints()
    }

    /// The handlers that the worker can call.
    pub closed spec fn handlers(&self) -> Map<Seq<u8>, ResourceHandler<F>> {
        self.endpoint_handler.handlers()
    }

    /// A worker that resolves against this provider.
    pub fn new(endpoint_handler: EndpointProvider<F>) -> (r: WebServerThreadHandler<F>)
        ensures
            r.endpoints() == endpoint_handler.endpoints(),
            r.handlers() == endpoint_handler.handlers(),
    {
        WebServerThreadHandler { endpoint_handler }
    }

    /// Takes a connection through one step.
    pub fn handle_client(&self, connection: &mut Connection, input: Input) -> (r: Action)
        ensures
            transition(
                self.endpoints(),
                self.handlers(),
                old(connection)@,
                input@,
                final(connection)@,
                r@,
            ),
    {
        let action = match (connection.state, input) {
            (ConnectionState::Reading, Input::Read(chunk)) => {
                if chunk.len() == 0 {
                    Action::Close
                } else {
                    append(&mut connection.received, chunk);
                    match core::str::from_utf8(connection.received.as_slice()) {
                        Err(_) => respond(false, Status::BadRequest, None),
                        Ok(message) => {
                            if !ends_with(connection.received.as_slice(), lit("\r\n\r\n")) {
                                return Action::Continue;
                            }
                            self.process_http_request(message)
                        },
                    }
                }
            },
            (ConnectionState::Resolved(compress), Input::FileRead(content)) => {
                WebServerThreadHandler::<F>::file_response(compress, content)
            },
            _ => Action::Close,
        };
        connection.state = match &action {
            Action::ReadFile(file) => ConnectionState::Resolved(file.compress),
            Action::Fail(_) => ConnectionState::Closed,
            Action::Close => ConnectionState::Closed,
            _ => ConnectionState::Reading,
        };
        connection.received = Vec::new();
        action
    }

    /// Answers one framed message.
    pub fn process_http_request(&self, message: &str) -> (r: Action)
        ensures
            answers(self.endpoints(), self.handlers(), bytes_of(message), r@),
    {
        match parse(message) {
            Ok(req) => {
                let compress = accepts_gzip(&req);
                match req.general.method {
                    HttpMethod::Get => self.process_get_request(compress, &req),
                    _ => respond(compress, Status::NotFound, None),
                }
            },
            Err(_) => respond(false, Status::BadRequest, None),
        }
    }

    /// Answers a GET request.
    pub fn process_get_request(&self, compress: bool, request: &HttpRequest) -> (r: Action)
        ensures
            answers_get(self.endpoints(), self.handlers(), compress, request@, r@),
    {
        let corrected_path = normalize(request.general.path.as_slice());
        match self.get_file_content(corrected_path, request) {
            Content::Body(content) => respond(compress, Status::Success, Some(content.as_slice())),
            Content::File(path) => Action::ReadFile(PendingFile { path, compress }),
            Content::Missing => respond(compress, Status::NotFound, None),
        }
    }

    /// Finds where the content for `path` comes from, and where it comes
    /// from a handler, calls the handler for it.
    pub fn get_file_content(&self, path: &[u8], request: &HttpRequest) -> (r: Content)
        ensures
            match source_of(self.endpoints(), path@) {
                SourceModel::Missing => r is Missing,
                SourceModel::File(p) => r matches Content::File(q) && q@ == p,
                SourceModel::Handler(id) => r matches Content::Body(body) && handler_returns(
                    self.handlers()[id].function(),
                    accepted(self.handlers()[id].schema(), request@.general.params),
                    body@,
                ),
            },
    {
        let endpoint = self.endpoint_handler.match_endpoint(path, HttpMethod::Get);
        match endpoint {
            Some(e) => {
                proof {
                    crate::endpoint::lemma_resolved_present(
                        self.endpoint_handler.endpoints(),
                        self.endpoint_handler.handlers(),
                        path@,
                        HttpMethod::Get,
                    );
                }
                match &e.endpoint_type {
                    EndpointType::StaticAsset(static_endpoint) => Content::File(
                        to_vec(static_endpoint.asset_path.as_slice()),
                    ),
                    EndpointType::Assets(asset_endpoint) => Content::File(
                        remap(path, e.path.as_slice(), asset_endpoint.asset_base.as_slice()),
                    ),
                    EndpointType::Resource(resource_endpoint) => Content::Body(
                        self.endpoint_handler.execute(resource_endpoint, request),
                    ),
                }
            },
            None => Content::Missing,
        }
    }

    /// Answers with what the awaited file held.
    pub fn file_response(compress: bool, content: Option<&[u8]>) -> (r: Action)
        ensures
            answers_file(
                compress,
                match content {
                    Some(c) => Some(c@),
                    None => None,
                },
                r@,
            ),
    {
        match content {
            Some(c) => respond(compress, Status::Success, Some(c)),
            None => respond(compress, Status::NotFound, None),
        }
    }
}

} // verus!
