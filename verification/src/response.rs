//! The response encoder: status line, headers and body as the bytes that
//! go out on the connection, with the body passed through or compressed.
use crate::text::{append, bytes_of, decimal, decimal_digits, lit, to_vec};
use crate::types::Header;
use flate2::write::GzEncoder;
use flate2::Compression;
use std::io::Write;
use vstd::prelude::*;

verus! {

/// Why a response could not be encoded.
#[derive(Structural, PartialEq, Eq, Clone, Copy, Debug)]
pub enum ResponseError {
    /// The compressor did not take the content.
    CompressorWrite,
    /// The compressor did not complete its output.
    CompressorFinish,
}

impl ResponseError {
    /// The message that goes with the error.
    pub open spec fn message(self) -> Seq<u8> {
        match self {
            ResponseError::CompressorWrite => bytes_of(
                "Failed to write response: Failed to write to compressor",
            ),
            ResponseError::CompressorFinish => bytes_of(
                "Failed to write response: Failed to compress content",
            ),
        }
    }

    /// The error as text.
    pub fn to_text(&self) -> (r: &'static [u8])
        ensures
            r@ == self.message(),
    {
        match self {
            ResponseError::CompressorWrite => lit(
                "Failed to write response: Failed to write to compressor",
            ),
            ResponseError::CompressorFinish => lit(
                "Failed to write response: Failed to compress content",
            ),
        }
    }
}

/// The statuses that the server answers with.
#[derive(Structural, PartialEq, Eq, Clone, Copy, Debug)]
pub enum Status {
    Success,
    BadRequest,
    NotFound,
}

impl Status {
    /// The status line, with its line break.
    pub open spec fn line(self) -> Seq<u8> {
        match self {
            Status::Success => bytes_of("HTTP/1.1 200 OK\r\n"),
            Status::BadRequest => bytes_of("HTTP/1.1 400 Bad Request\r\n"),
            Status::NotFound => bytes_of("HTTP/1.1 404 Not Found\r\n"),
        }
    }

    /// The status line as text.
    pub fn status_line(&self) -> (r: &'static [u8])
        ensures
            r@ == self.line(),
    {
        match self {
            Status::Success => lit("HTTP/1.1 200 OK\r\n"),
            Status::BadRequest => lit("HTTP/1.1 400 Bad Request\r\n"),
            Status::NotFound => lit("HTTP/1.1 404 Not Found\r\n"),
        }
    }
}

/// `std::io::Error`, the error of the compressor's calls. It is carried
/// through; nothing is read from it.
#[verifier::external_type_specification]
#[verifier::external_body]
pub struct ExIoError(std::io::Error);

/// A gzip compressor that collects its output in a vector: a
/// `flate2::write::GzEncoder` over `Vec<u8>`.
#[verifier::external_body]
pub struct GzipStream {
    inner: GzEncoder<Vec<u8>>,
}

/// What the compressor gives for `data`, written to it in one piece, at
/// the default compression level and with the default header: the complete
/// gzip stream, or nothing where the compressor reports a failure.
pub uninterp spec fn gzip_result(data: Seq<u8>) -> Option<Seq<u8>>;

/// The gzip stream for `data`; empty where the compressor gives none.
pub open spec fn gzip_of(data: Seq<u8>) -> Seq<u8> {
    match gzip_result(data) {
        Some(stream) => stream,
        None => Seq::empty(),
    }
}

/// What has been written to a compressor so far.
pub uninterp spec fn gzip_input(stream: GzipStream) -> Seq<u8>;

/// `flate2::write::GzEncoder::new` over an empty vector, with
/// `flate2::Compression::default()`: a compressor to which nothing has been
/// written yet.
#[verifier::external_body]
fn gzip_start() -> (r: GzipStream)
    ensures
        gzip_input(r) == Seq::<u8>::empty(),
{
    GzipStream { inner: GzEncoder::new(Vec::new(), Compression::default()) }
}

/// `std::io::Write::write_all` of the `GzEncoder`, on a compressor to which
/// nothing has been written yet: on success the whole of `data` has been
/// written to it; a failure is a failure of the compressor on `data`.
#[verifier::external_body]
fn gzip_write_all(stream: &mut GzipStream, data: &[u8]) -> (r: Result<(), std::io::Error>)
    requires
        gzip_input(*old(stream)) == Seq::<u8>::empty(),
    ensures
        r is Ok ==> gzip_input(*final(stream)) == data@,
        r is Err ==> gzip_result(data@) is None,
{
    stream.inner.write_all(data)
}

/// `flate2::write::GzEncoder::finish`: on success the vector that holds
/// the complete gzip stream for what was written; a failure is a failure
/// of the compressor on what was written.
#[verifier::external_body]
fn gzip_finish(stream: GzipStream) -> (r: Result<Vec<u8>, std::io::Error>)
    ensures
        match r {
            Ok(v) => gzip_result(gzip_input(stream)) == Some(v@),
            Err(_) => gzip_result(gzip_input(stream)) is None,
        },
{
    stream.inner.finish()
}

/// The encoder that passes content through.
#[derive(Debug, Clone, Copy)]
pub struct PlainResponseEncoder {}

/// The encoder that compresses content to a gzip stream.
#[derive(Debug, Clone, Copy)]
pub struct GzipResponseEncoder {}

impl PlainResponseEncoder {
    /// The content, unchanged.
    pub fn encode(&self, val: &[u8]) -> (r: Result<Vec<u8>, ResponseError>)
        ensures
            r matches Ok(v) && v@ == val@,
    {
        Ok(to_vec(val))
    }
}

impl GzipResponseEncoder {
    /// The gzip stream of the content, wherever the compressor gives one;
    /// an error where it gives none.
    pub fn encode(&self, val: &[u8]) -> (r: Result<Vec<u8>, ResponseError>)
        ensures
            r is Ok <==> gzip_result(val@) is Some,
            r matches Ok(v) ==> gzip_result(val@) == Some(v@),
    {
        let mut compressed = gzip_start();
        if let Err(e) = write_outcome(gzip_write_all(&mut compressed, val)) {
            return Err(e);
        }
        compressed_bytes(gzip_finish(compressed))
    }
}

/// What the encoder makes of the outcome of writing to the compressor:
/// success, or the error that stands for a failed write.
pub fn write_outcome(written: Result<(), std::io::Error>) -> (r: Result<(), ResponseError>)
    ensures
        match written {
            Ok(_) => r == Ok::<(), ResponseError>(()),
            Err(_) => r == Err::<(), ResponseError>(ResponseError::CompressorWrite),
        },
{
    match written {
        Ok(_) => Ok(()),
        Err(_) => Err(ResponseError::CompressorWrite),
    }
}

/// What the encoder returns for what the compressor's completion gave: the
/// bytes, or the error that stands for a failed completion.
pub fn compressed_bytes(finished: Result<Vec<u8>, std::io::Error>) -> (r: Result<
    Vec<u8>,
    ResponseError,
>)
    ensures
        match finished {
            Ok(bytes) => r == Ok::<Vec<u8>, ResponseError>(bytes),
            Err(_) => r == Err::<Vec<u8>, ResponseError>(ResponseError::CompressorFinish),
        },
{
    match finished {
        Ok(compressed_bytes) => Ok(compressed_bytes),
        Err(_) => Err(ResponseError::CompressorFinish),
    }
}

/// One of the built-in encoders.
#[derive(Debug, Clone, Copy)]
pub enum ResponseEncoder {
    Plain(PlainResponseEncoder),
    Gzip(GzipResponseEncoder),
}

impl ResponseEncoder {
    /// The encoder gives a result for `val`: always where it passes
    /// content through, and wherever the compressor gives a stream.
    pub open spec fn succeeds(self, val: Seq<u8>) -> bool {
        match self {
            ResponseEncoder::Plain(_) => true,
            ResponseEncoder::Gzip(_) => gzip_result(val) is Some,
        }
    }

    /// What the encoder makes of `val`.
    pub open spec fn encoded(self, val: Seq<u8>) -> Seq<u8> {
        match self {
            ResponseEncoder::Plain(_) => val,
            ResponseEncoder::Gzip(_) => gzip_of(val),
        }
    }

    /// Encodes `val`.
    pub fn encode(&self, val: &[u8]) -> (r: Result<Vec<u8>, ResponseError>)
        ensures
            r is Ok <==> self.succeeds(val@),
            r matches Ok(v) ==> v@ == self.encoded(val@),
    {
        match self {
            ResponseEncoder::Plain(e) => e.encode(val),
            ResponseEncoder::Gzip(e) => e.encode(val),
        }
    }
}

/// An encoded head and encoded content as one message: the head, the
/// `Content-Length` header with the length of the content as it is sent,
/// the empty line, and the content.
pub open spec fn framed(head: Seq<u8>, content: Seq<u8>) -> Seq<u8> {
    head + bytes_of("Content-Length: ") + decimal(content.len()) + bytes_of("\r\n\r\n") + content
}

/// Puts an encoded head and encoded content together as one message.
pub fn frame(encoded_header: Vec<u8>, encoded_content: &[u8]) -> (r: Vec<u8>)
    ensures
        r@ == framed(encoded_header@, encoded_content@),
{
    let mut out = encoded_header;
    append(&mut out, lit("Content-Length: "));
    let digits = decimal_digits(encoded_content.len());
    append(&mut out, digits.as_slice());
    append(&mut out, lit("\r\n\r\n"));
    append(&mut out, encoded_content);
    out
}

/// The writer: an encoder for the head of a response and one for its
/// content.
#[derive(Debug, Clone, Copy)]
pub struct DefaultResponseWriter {
    header_encoder: ResponseEncoder,
    content_encoder: ResponseEncoder,
}

impl DefaultResponseWriter {
    /// The encoder of the head.
    pub closed spec fn header_encoder(&self) -> ResponseEncoder {
        self.header_encoder
    }

    /// The encoder of the content.
    pub closed spec fn content_encoder(&self) -> ResponseEncoder {
        self.content_encoder
    }

    /// What the writer makes of a head and optional content. Content that
    /// is absent is empty and goes through no encoder.
    pub open spec fn written(&self, headers: Seq<u8>, content: Option<Seq<u8>>) -> Seq<u8> {
        framed(
            self.header_encoder().encoded(headers),
            match content {
                Some(c) => self.content_encoder().encoded(c),
                None => Seq::empty(),
            },
        )
    }

    /// The writer gives a message for this head and content: both encoders
    /// give their results. Content that is absent goes through no encoder.
    pub open spec fn writes(&self, headers: Seq<u8>, content: Option<Seq<u8>>) -> bool {
        self.header_encoder().succeeds(headers) && match content {
            Some(c) => self.content_encoder().succeeds(c),
            None => true,
        }
    }

    /// A writer that passes head and content through.
    pub fn uncompressed() -> (r: DefaultResponseWriter)
        ensures
            r.header_encoder() is Plain,
            r.content_encoder() is Plain,
    {
        DefaultResponseWriter {
            header_encoder: ResponseEncoder::Plain(PlainResponseEncoder {  }),
            content_encoder: ResponseEncoder::Plain(PlainResponseEncoder {  }),
        }
    }

    /// A writer that passes the head through and compresses the content.
    pub fn gzip() -> (r: DefaultResponseWriter)
        ensures
            r.header_encoder() is Plain,
            r.content_encoder() is Gzip,
    {
        DefaultResponseWriter {
            header_encoder: ResponseEncoder::Plain(PlainResponseEncoder {  }),
            content_encoder: ResponseEncoder::Gzip(GzipResponseEncoder {  }),
        }
    }

    /// The message for a head and optional content, wherever both
    /// encoders give their results; an error where one of them gives none.
    pub fn write(&self, headers: &[u8], content: Option<&[u8]>) -> (r: Result<
        Vec<u8>,
        ResponseError,
    >)
        ensures
            r is Ok <==> self.writes(
                headers@,
                match content {
                    Some(c) => Some(c@),
                    None => None,
                },
            ),
            r matches Ok(bytes) ==> bytes@ == self.written(
                headers@,
                match content {
                    Some(c) => Some(c@),
                    None => None,
                },
            ),
    {
        let encoded_header = match self.header_encoder.encode(headers) {
            Ok(h) => h,
            Err(e) => {
                return Err(e);
            },
        };
        let encoded_content = match content {
            Some(c) => match self.content_encoder.encode(c) {
                Ok(body) => body,
                Err(e) => {
                    return Err(e);
                },
            },
            None => Vec::new(),
        };
        Ok(frame(encoded_header, encoded_content.as_slice()))
    }
}

/// The lines of a list of headers, each as `name: value` with its line
/// break.
pub open spec fn header_lines(headers: Seq<Header>) -> Seq<u8>
    decreases headers.len(),
{
    if headers.len() == 0 {
        Seq::empty()
    } else {
        header_lines(headers.drop_last()) + headers.last().name@ + bytes_of(": ")
            + headers.last().value@ + bytes_of("\r\n")
    }
}

/// The head of a response: the status line, the further headers, and the
/// `Content-Encoding` header where an encoding is named.
pub open spec fn head_of(status: Status, headers: Seq<Header>, encoding: Option<Seq<u8>>) -> Seq<u8> {
    status.line() + header_lines(headers) + match encoding {
        Some(name) => bytes_of("Content-Encoding: ") + name + bytes_of("\r\n"),
        None => Seq::empty(),
    }
}

/// The response on the wire for a status and an optional body, for a
/// client that does or does not take gzip: the status line, for a
/// compressed body the `Content-Encoding` header, the `Content-Length`
/// header with the length of the body as it is sent, the empty line, and
/// the body as it is sent. A response without body is never compressed.
pub open spec fn reply(compress: bool, status: Status, body: Option<Seq<u8>>) -> Seq<u8> {
    match body {
        None => framed(status.line(), Seq::empty()),
        Some(b) => if compress {
            framed(status.line() + bytes_of("Content-Encoding: gzip\r\n"), gzip_of(b))
        } else {
            framed(status.line(), b)
        },
    }
}

/// The response of `reply` is given: always for a client that does not take
/// gzip and for a response without body, and otherwise wherever the
/// compressor gives a stream for the body.
pub open spec fn reply_given(compress: bool, body: Option<Seq<u8>>) -> bool {
    match body {
        Some(b) => !compress || gzip_result(b) is Some,
        None => true,
    }
}

/// The response encoder for one request: a writer and, where the content
/// is encoded, the name of the encoding.
#[derive(Debug, Clone)]
pub struct ResponseHandler {
    content_encoding: Option<Vec<u8>>,
    writer: DefaultResponseWriter,
}

impl ResponseHandler {
    /// The name of the content's encoding, if it is encoded.
    pub closed spec fn content_encoding(&self) -> Option<Seq<u8>> {
        match self.content_encoding {
            Some(name) => Some(name@),
            None => None,
        }
    }

    /// The writer.
    pub closed spec fn writer(&self) -> DefaultResponseWriter {
        self.writer
    }

    /// What the encoder answers for a status, further headers and an
    /// optional body. A response without body names no encoding.
    pub open spec fn response(&self, status: Status, headers: Seq<Header>, body: Option<Seq<u8>>) -> Seq<
        u8,
    > {
        self.writer().written(
            head_of(
                status,
                headers,
                if body is Some {
                    self.content_encoding()
                } else {
                    None
                },
            ),
            body,
        )
    }

    /// The encoder gives a response for a status, further headers and an
    /// optional body: its writer gives the message for the head and the
    /// body.
    pub open spec fn responds(&self, status: Status, headers: Seq<Header>, body: Option<Seq<u8>>) -> bool {
        self.writer().writes(
            head_of(
                status,
                headers,
                if body is Some {
                    self.content_encoding()
                } else {
                    None
                },
            ),
            body,
        )
    }

    /// This is the encoder for a client that does (or does not) take gzip.
    pub open spec fn built_in(&self, compress: bool) -> bool {
        &&& self.writer().header_encoder() is Plain
        &&& if compress {
            self.content_encoding() == Some(bytes_of("gzip")) && self.writer().content_encoder()
                is Gzip
        } else {
            self.content_encoding() is None && self.writer().content_encoder() is Plain
        }
    }

    /// The encoder for a client that does (or does not) take gzip.
    pub fn for_client(compress: bool) -> (r: Box<ResponseHandler>)
        ensures
            r.built_in(compress),
    {
        if compress {
            ResponseHandler::gzip()
        } else {
            ResponseHandler::uncompressed()
        }
    }

    /// The encoder that sends content as it is.
    pub fn uncompressed() -> (r: Box<ResponseHandler>)
        ensures
            r.content_encoding() is None,
            r.writer().header_encoder() is Plain,
            r.writer().content_encoder() is Plain,
    {
        ResponseHandler::create(DefaultResponseWriter::uncompressed(), None)
    }

    /// The encoder that sends content as a gzip stream.
    pub fn gzip() -> (r: Box<ResponseHandler>)
        ensures
            r.content_encoding() == Some(bytes_of("gzip")),
            r.writer().header_encoder() is Plain,
            r.writer().content_encoder() is Gzip,
    {
        ResponseHandler::create(DefaultResponseWriter::gzip(), Some(to_vec(lit("gzip"))))
    }

    /// An encoder with this writer and this name for the encoding.
    pub fn create(writer: DefaultResponseWriter, content_encoding: Option<Vec<u8>>) -> (r: Box<
        ResponseHandler,
    >)
        ensures
            r.writer() == writer,
            r.content_encoding() == match content_encoding {
                Some(name) => Some(name@),
                None => None,
            },
    {
        Box::new(ResponseHandler { content_encoding, writer })
    }

    /// The response for a status, further headers and an optional body,
    /// wherever the writer gives it; an error where an encoder gives no
    /// result.
    pub fn encode(&self, status: Status, extra_headers: &[Header], body: Option<&[u8]>) -> (r:
        Result<Vec<u8>, ResponseError>)
        ensures
            r is Ok <==> self.responds(
                status,
                extra_headers@,
                match body {
                    Some(c) => Some(c@),
                    None => None,
                },
            ),
            r matches Ok(bytes) ==> bytes@ == self.response(
                status,
                extra_headers@,
                match body {
                    Some(c) => Some(c@),
                    None => None,
                },
            ),
    {
        let mut head = to_vec(status.status_line());
        let mut k: usize = 0;
        assert(extra_headers@.take(0) =~= Seq::<Header>::empty());
        while k < extra_headers.len()
            invariant
                k <= extra_headers.len(),
                head@ == status.line() + header_lines(extra_headers@.take(k as int)),
            decreases extra_headers.len() - k,
        {
            proof {
                assert(extra_headers@.take(k + 1).drop_last() =~= extra_headers@.take(k as int));
                assert(extra_headers@.take(k + 1).last() == extra_headers@[k as int]);
            }
            let ghost before = head@;
            append(&mut head, extra_headers[k].name.as_slice());
            append(&mut head, lit(": "));
            append(&mut head, extra_headers[k].value.as_slice());
            append(&mut head, lit("\r\n"));
            k += 1;
            assert(head@ =~= status.line() + header_lines(extra_headers@.take(k as int)));
        }
        assert(extra_headers@.take(extra_headers.len() as int) =~= extra_headers@);
        let ghost lines = head@;
        if body.is_some() {
            match &self.content_encoding {
                Some(name) => {
                    append(&mut head, lit("Content-Encoding: "));
                    append(&mut head, name.as_slice());
                    append(&mut head, lit("\r\n"));
                    assert(head@ =~= lines + (bytes_of("Content-Encoding: ") + name@ + bytes_of(
                        "\r\n",
                    )));
                },
                None => {
                    assert(head@ =~= lines + Seq::<u8>::empty());
                },
            }
        } else {
            assert(head@ =~= lines + Seq::<u8>::empty());
        }
        self.write(head.as_slice(), body)
    }

    /// The response `200 OK` with this content.
    pub fn ok(&self, content: &[u8]) -> (r: Result<Vec<u8>, ResponseError>)
        ensures
            r is Ok <==> self.responds(Status::Success, Seq::empty(), Some(content@)),
            r matches Ok(bytes) ==> bytes@ == self.response(
                Status::Success,
                Seq::empty(),
                Some(content@),
            ),
    {
        let none: Vec<Header> = Vec::new();
        self.encode(Status::Success, none.as_slice(), Some(content))
    }

    /// The response `404 Not Found`, without body.
    pub fn not_found(&self) -> (r: Result<Vec<u8>, ResponseError>)
        ensures
            r is Ok <==> self.responds(Status::NotFound, Seq::empty(), None),
            r matches Ok(bytes) ==> bytes@ == self.response(Status::NotFound, Seq::empty(), None),
    {
        let none: Vec<Header> = Vec::new();
        self.encode(Status::NotFound, none.as_slice(), None)
    }

    /// The response `400 Bad Request`, without body.
    pub fn bad_request(&self) -> (r: Result<Vec<u8>, ResponseError>)
        ensures
            r is Ok <==> self.responds(Status::BadRequest, Seq::empty(), None),
            r matches Ok(bytes) ==> bytes@ == self.response(Status::BadRequest, Seq::empty(), None),
    {
        let none: Vec<Header> = Vec::new();
        self.encode(Status::BadRequest, none.as_slice(), None)
    }

    /// The message for a head and optional content, as the writer gives it.
    pub fn write(&self, headers: &[u8], content: Option<&[u8]>) -> (r: Result<
        Vec<u8>,
        ResponseError,
    >)
        ensures
            r is Ok <==> self.writer().writes(
                headers@,
                match content {
                    Some(c) => Some(c@),
                    None => None,
                },
            ),
            r matches Ok(bytes) ==> bytes@ == self.writer().written(
                headers@,
                match content {
                    Some(c) => Some(c@),
                    None => None,
                },
            ),
    {
        self.writer.write(headers, content)
    }
}

/// What the built-in encoders answer, byte for byte, and when: the response
/// is given unless the body is to be compressed and the compressor gives no
/// stream for it. In particular the `Content-Length` of a compressed
/// response is the length of the compressed body, not that of the content
/// it was made from.
pub proof fn lemma_built_in_reply(
    h: ResponseHandler,
    compress: bool,
    status: Status,
    body: Option<Seq<u8>>,
)
    requires
        h.built_in(compress),
    ensures
        h.responds(status, Seq::empty(), body) == reply_given(compress, body),
        h.response(status, Seq::empty(), body) == reply(compress, status, body),
        body matches Some(b) ==> reply(true, status, body) == status.line() + bytes_of(
            "Content-Encoding: gzip\r\n",
        ) + bytes_of("Content-Length: ") + decimal(gzip_of(b).len()) + bytes_of("\r\n\r\n")
            + gzip_of(b),
{
    reveal_strlit("Content-Encoding: gzip\r\n");
    reveal_strlit("Content-Encoding: ");
    reveal_strlit("gzip");
    reveal_strlit("\r\n");
    crate::text::lemma_ascii_bytes("Content-Encoding: gzip\r\n");
    crate::text::lemma_ascii_bytes("Content-Encoding: ");
    crate::text::lemma_ascii_bytes("gzip");
    crate::text::lemma_ascii_bytes("\r\n");
    assert(bytes_of("Content-Encoding: ") + bytes_of("gzip") + bytes_of("\r\n") =~= bytes_of(
        "Content-Encoding: gzip\r\n",
    ));
    let head = head_of(
        status,
        Seq::empty(),
        if body is Some {
            h.content_encoding()
        } else {
            None
        },
    );
    assert(header_lines(Seq::<Header>::empty()) =~= Seq::<u8>::empty());
    if body is Some && compress {
        assert(head =~= status.line() + bytes_of("Content-Encoding: gzip\r\n"));
    } else {
        assert(head =~= status.line());
    }
}

} // verus!
