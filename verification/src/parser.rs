//! The request parser: from the raw text of one framed message to a
//! structured request.
use crate::request_helper::{clean_path, get_parameters_from_path, path_of, query_parameters};
use crate::text::{
    bytes_of, contains, eq_ignore_case, equals_ignore_case, find, find_first, is_ws,
    lemma_ascii_bytes, lemma_split_clean, lemma_split_first, lemma_split_last, lemma_trim_fixed,
    lit, lower, occurs_at, split, split_on, to_lower, to_vec, trim, trimmed, views_of,
};
use crate::types::{
    GeneralModel, GeneralRequest, HeaderMap, HttpMethod, HttpRequest, HttpVersion, RequestModel,
};
use vstd::prelude::*;
use vstd::slice::slice_subrange;

verus! {

/// Why a request could not be parsed.
#[derive(Structural, PartialEq, Eq, Clone, Copy, Debug)]
pub enum ParseError {
    /// The first line holds no token at all.
    EmptyRequest,
    /// The first line holds one token, or more than three.
    MalformedGeneralLine,
    /// The first token is none of the six known methods.
    UnknownMethod,
    /// The third token is none of the three known versions.
    UnknownVersion,
    /// A segment of the query has no `=`.
    MalformedQueryParameter,
}

/// The method that a token names, whatever the case of its letters.
pub open spec fn method_of(token: Seq<u8>) -> Option<HttpMethod> {
    if eq_ignore_case(token, bytes_of("GET")) {
        Some(HttpMethod::Get)
    } else if eq_ignore_case(token, bytes_of("HEAD")) {
        Some(HttpMethod::Head)
    } else if eq_ignore_case(token, bytes_of("OPTIONS")) {
        Some(HttpMethod::Options)
    } else if eq_ignore_case(token, bytes_of("POST")) {
        Some(HttpMethod::Post)
    } else if eq_ignore_case(token, bytes_of("PUT")) {
        Some(HttpMethod::Put)
    } else if eq_ignore_case(token, bytes_of("DELETE")) {
        Some(HttpMethod::Delete)
    } else {
        None
    }
}

/// The version that a token names, whatever the case of its letters.
pub open spec fn version_of(token: Seq<u8>) -> Option<HttpVersion> {
    if eq_ignore_case(token, bytes_of("HTTP/1.1")) {
        Some(HttpVersion::One)
    } else if eq_ignore_case(token, bytes_of("HTTP/2")) {
        Some(HttpVersion::Two)
    } else if eq_ignore_case(token, bytes_of("HTTP/3")) {
        Some(HttpVersion::Three)
    } else {
        None
    }
}

/// The tokens among a list of pieces: each piece trimmed, the empty ones
/// left out.
pub open spec fn tokens_of(pieces: Seq<Seq<u8>>) -> Seq<Seq<u8>>
    decreases pieces.len(),
{
    if pieces.len() == 0 {
        Seq::empty()
    } else {
        let prev = tokens_of(pieces.drop_last());
        let token = trim(pieces.last());
        if token.len() > 0 {
            prev.push(token)
        } else {
            prev
        }
    }
}

/// The tokens of a line: its pieces between spaces, trimmed, without the
/// empty ones.
pub open spec fn tokens(line: Seq<u8>) -> Seq<Seq<u8>> {
    tokens_of(split(line, bytes_of(" ")))
}

/// What the first line of a request says. Two tokens are a method and a
/// target, with the version defaulting to HTTP/1.1; three tokens carry the
/// version as well. The method is judged first, then the query, then the
/// version.
pub open spec fn general_of(line: Seq<u8>) -> Result<GeneralModel, ParseError> {
    let t = tokens(line);
    if t.len() == 0 {
        Err(ParseError::EmptyRequest)
    } else if t.len() != 2 && t.len() != 3 {
        Err(ParseError::MalformedGeneralLine)
    } else {
        match method_of(t[0]) {
            None => Err(ParseError::UnknownMethod),
            Some(method) => match query_parameters(t[1]) {
                None => Err(ParseError::MalformedQueryParameter),
                Some(params) => if t.len() == 2 {
                    Ok(GeneralModel { method, path: path_of(t[1]), params, version: HttpVersion::One })
                } else {
                    match version_of(t[2]) {
                        None => Err(ParseError::UnknownVersion),
                        Some(version) => Ok(
                            GeneralModel { method, path: path_of(t[1]), params, version },
                        ),
                    }
                },
            },
        }
    }
}

/// The name and value of a header line, cut at its first `:`, both sides
/// trimmed and the name in lower case; `None` for a line without `:`.
pub open spec fn header_of(line: Seq<u8>) -> Option<(Seq<u8>, Seq<u8>)> {
    let i = find(line, bytes_of(":"));
    if i < line.len() {
        Some((lower(trim(line.take(i))), trim(line.skip(i + 1))))
    } else {
        None
    }
}

/// The headers that a list of lines gives. Lines without `:` are passed
/// over; of two lines with the same name the later one counts.
pub open spec fn headers_of(lines: Seq<Seq<u8>>) -> Map<Seq<u8>, Seq<u8>>
    decreases lines.len(),
{
    if lines.len() == 0 {
        Map::empty()
    } else {
        let prev = headers_of(lines.drop_last());
        match header_of(lines.last()) {
            Some((name, value)) => prev.insert(name, value),
            None => prev,
        }
    }
}

/// What a raw request says: its first line up to the first line break is
/// the general line, every further line is a header line.
pub open spec fn parse_spec(raw: Seq<u8>) -> Result<RequestModel, ParseError> {
    let lines = split(raw, bytes_of("\r\n"));
    match general_of(lines[0]) {
        Err(e) => Err(e),
        Ok(general) => Ok(RequestModel { general, headers: headers_of(lines.skip(1)) }),
    }
}

/// The separators of the request grammar, byte by byte.
pub proof fn lemma_grammar_bytes()
    ensures
        bytes_of("\r\n") =~= seq![13u8, 10u8],
        bytes_of(" ") =~= seq![32u8],
        bytes_of(":") =~= seq![58u8],
{
    reveal_strlit("\r\n");
    reveal_strlit(" ");
    reveal_strlit(":");
    lemma_ascii_bytes("\r\n");
    lemma_ascii_bytes(" ");
    lemma_ascii_bytes(":");
}

/// The method and version tokens, byte by byte.
pub proof fn lemma_token_bytes()
    ensures
        bytes_of("GET") =~= seq![71u8, 69u8, 84u8],
        bytes_of("HEAD") =~= seq![72u8, 69u8, 65u8, 68u8],
        bytes_of("OPTIONS") =~= seq![79u8, 80u8, 84u8, 73u8, 79u8, 78u8, 83u8],
        bytes_of("POST") =~= seq![80u8, 79u8, 83u8, 84u8],
        bytes_of("PUT") =~= seq![80u8, 85u8, 84u8],
        bytes_of("DELETE") =~= seq![68u8, 69u8, 76u8, 69u8, 84u8, 69u8],
        bytes_of("HTTP/1.1") =~= seq![72u8, 84u8, 84u8, 80u8, 47u8, 49u8, 46u8, 49u8],
        bytes_of("HTTP/2") =~= seq![72u8, 84u8, 84u8, 80u8, 47u8, 50u8],
        bytes_of("HTTP/3") =~= seq![72u8, 84u8, 84u8, 80u8, 47u8, 51u8],
{
    reveal_strlit("GET");
    reveal_strlit("HEAD");
    reveal_strlit("OPTIONS");
    reveal_strlit("POST");
    reveal_strlit("PUT");
    reveal_strlit("DELETE");
    reveal_strlit("HTTP/1.1");
    reveal_strlit("HTTP/2");
    reveal_strlit("HTTP/3");
    lemma_ascii_bytes("GET");
    lemma_ascii_bytes("HEAD");
    lemma_ascii_bytes("OPTIONS");
    lemma_ascii_bytes("POST");
    lemma_ascii_bytes("PUT");
    lemma_ascii_bytes("DELETE");
    lemma_ascii_bytes("HTTP/1.1");
    lemma_ascii_bytes("HTTP/2");
    lemma_ascii_bytes("HTTP/3");
}

/// A word: not empty, and free of whitespace.
pub open spec fn is_word(s: Seq<u8>) -> bool {
    s.len() > 0 && forall|i: int| 0 <= i < s.len() ==> !is_ws(#[trigger] s[i])
}

/// A token as it stands between single spaces: not empty, free of spaces,
/// and neither beginning nor ending with whitespace.
pub open spec fn is_token(s: Seq<u8>) -> bool {
    &&& s.len() > 0
    &&& !is_ws(s[0])
    &&& !is_ws(s.last())
    &&& forall|i: int| 0 <= i < s.len() ==> #[trigger] s[i] != 32
}

/// A text that equals a word up to the case of its letters is a word.
pub proof fn lemma_word_ignore_case(text: Seq<u8>, word: Seq<u8>)
    requires
        eq_ignore_case(text, word),
        is_word(word),
    ensures
        is_word(text),
{
    assert(lower(text).len() == text.len());
    assert(lower(word).len() == word.len());
    assert forall|i: int| 0 <= i < text.len() implies !is_ws(#[trigger] text[i]) by {
        assert(lower(text)[i] == lower(word)[i]);
        assert(!is_ws(word[i]));
    }
}

/// Each method is recognised by its token, whatever the case of the
/// letters.
pub proof fn lemma_method_token(text: Seq<u8>, method: HttpMethod)
    requires
        eq_ignore_case(text, method.token()),
    ensures
        method_of(text) == Some(method),
        is_word(text),
{
    lemma_token_bytes();
    assert(lower(bytes_of("GET"))[0] == 103);
    assert(lower(bytes_of("HEAD"))[0] == 104);
    assert(lower(bytes_of("POST"))[0] == 112);
    assert(lower(bytes_of("PUT"))[0] == 112);
    assert(lower(bytes_of("GET")).len() == 3);
    assert(lower(bytes_of("HEAD")).len() == 4);
    assert(lower(bytes_of("OPTIONS")).len() == 7);
    assert(lower(bytes_of("POST")).len() == 4);
    assert(lower(bytes_of("PUT")).len() == 3);
    assert(lower(bytes_of("DELETE")).len() == 6);
    assert(is_word(method.token()));
    lemma_word_ignore_case(text, method.token());
}

/// Each version is recognised by its token, whatever the case of the
/// letters.
pub proof fn lemma_version_token(text: Seq<u8>, version: HttpVersion)
    requires
        eq_ignore_case(text, version.token()),
    ensures
        version_of(text) == Some(version),
        is_word(text),
{
    lemma_token_bytes();
    assert(lower(bytes_of("HTTP/1.1")).len() == 8);
    assert(lower(bytes_of("HTTP/2")).len() == 6);
    assert(lower(bytes_of("HTTP/2"))[5] == 50);
    assert(lower(bytes_of("HTTP/3"))[5] == 51);
    assert(is_word(version.token()));
    lemma_word_ignore_case(text, version.token());
}

/// Two tokens joined by one space are the two tokens of the line.
pub proof fn lemma_tokens_two(a: Seq<u8>, b: Seq<u8>)
    requires
        is_token(a),
        is_token(b),
    ensures
        tokens(a + bytes_of(" ") + b) == seq![a, b],
{
    lemma_grammar_bytes();
    let sp = bytes_of(" ");
    lemma_split_first(a, sp, b);
    lemma_split_last(b, sp);
    let pieces = split(a + sp + b, sp);
    assert(pieces =~= seq![a, b]);
    lemma_trim_fixed(a);
    lemma_trim_fixed(b);
    assert(pieces.drop_last() =~= seq![a]);
    assert(seq![a].drop_last() =~= Seq::<Seq<u8>>::empty());
    reveal_with_fuel(tokens_of, 3);
    assert(tokens_of(seq![a]) =~= seq![a]);
    assert(tokens_of(pieces) =~= seq![a, b]);
}

/// Three tokens joined by single spaces are the three tokens of the line.
pub proof fn lemma_tokens_three(a: Seq<u8>, b: Seq<u8>, c: Seq<u8>)
    requires
        is_token(a),
        is_token(b),
        is_token(c),
    ensures
        tokens(a + bytes_of(" ") + b + bytes_of(" ") + c) == seq![a, b, c],
{
    lemma_grammar_bytes();
    let sp = bytes_of(" ");
    let tail = b + sp + c;
    assert(a + sp + b + sp + c =~= a + sp + tail);
    lemma_split_first(a, sp, tail);
    lemma_split_first(b, sp, c);
    lemma_split_last(c, sp);
    let pieces = split(a + sp + tail, sp);
    assert(pieces =~= seq![a, b, c]);
    lemma_trim_fixed(a);
    lemma_trim_fixed(b);
    lemma_trim_fixed(c);
    assert(pieces.drop_last() =~= seq![a, b]);
    assert(seq![a, b].drop_last() =~= seq![a]);
    assert(seq![a].drop_last() =~= Seq::<Seq<u8>>::empty());
    reveal_with_fuel(tokens_of, 4);
    assert(tokens_of(seq![a]) =~= seq![a]);
    assert(tokens_of(seq![a, b]) =~= seq![a, b]);
    assert(tokens_of(pieces) =~= seq![a, b, c]);
}

/// A request written as method, target and version, separated by single
/// spaces and ended by a line break, parses to that method, the target's
/// path and query parameters, and that version, whatever the case of the
/// letters of method and version. The lines after the first are read as
/// headers. The target is any text that stays one token of its line: it
/// holds no space and no line break, and neither begins nor ends with
/// whitespace.
pub proof fn lemma_parse_round_trip(
    method_text: Seq<u8>,
    method: HttpMethod,
    target: Seq<u8>,
    version_text: Seq<u8>,
    version: HttpVersion,
    rest: Seq<u8>,
)
    requires
        eq_ignore_case(method_text, method.token()),
        eq_ignore_case(version_text, version.token()),
        is_token(target),
        !contains(target, bytes_of("\r\n")),
        query_parameters(target) is Some,
    ensures
        parse_spec(
            method_text + bytes_of(" ") + target + bytes_of(" ") + version_text + bytes_of("\r\n")
                + rest,
        ) == Ok::<RequestModel, ParseError>(
            (RequestModel {
                general: GeneralModel {
                    method,
                    path: path_of(target),
                    params: query_parameters(target)->0,
                    version,
                },
                headers: headers_of(split(rest, bytes_of("\r\n"))),
            }),
        ),
{
    lemma_grammar_bytes();
    lemma_method_token(method_text, method);
    lemma_version_token(version_text, version);
    let crlf = bytes_of("\r\n");
    let line = method_text + bytes_of(" ") + target + bytes_of(" ") + version_text;
    let m = method_text.len() as int;
    let t = target.len() as int;
    assert forall|j: int| 0 <= j < line.len() implies !occurs_at(line + crlf, j, crlf) by {
        let whole = line + crlf;
        if occurs_at(whole, j, crlf) {
            assert(whole.subrange(j, j + 2)[0] == 13);
            assert(whole.subrange(j, j + 2)[1] == 10);
            if j < m {
                assert(whole[j] == method_text[j]);
            } else if j == m {
            } else if j < m + t {
                assert(whole[j] == target[j - m - 1]);
                assert(whole[j + 1] == target[j - m]);
                assert(target.subrange(j - m - 1, j - m + 1) =~= crlf);
                assert(occurs_at(target, j - m - 1, crlf));
            } else if j == m + t {
                assert(whole[j] == target[t - 1]);
            } else if j == m + t + 1 {
            } else {
                assert(whole[j] == version_text[j - m - t - 2]);
            }
        }
    }
    lemma_split_clean(line, crlf, rest);
    let lines = split(line + crlf + rest, crlf);
    assert(lines[0] == line);
    assert(lines.skip(1) =~= split(rest, crlf));
    lemma_tokens_three(method_text, target, version_text);
}

/// A request written as method and target only is taken as HTTP/1.1.
pub proof fn lemma_parse_default_version(
    method_text: Seq<u8>,
    method: HttpMethod,
    target: Seq<u8>,
    rest: Seq<u8>,
)
    requires
        eq_ignore_case(method_text, method.token()),
        is_token(target),
        !contains(target, bytes_of("\r\n")),
        query_parameters(target) is Some,
    ensures
        parse_spec(method_text + bytes_of(" ") + target + bytes_of("\r\n") + rest) == Ok::<
            RequestModel,
            ParseError,
        >(
            (RequestModel {
                general: GeneralModel {
                    method,
                    path: path_of(target),
                    params: query_parameters(target)->0,
                    version: HttpVersion::One,
                },
                headers: headers_of(split(rest, bytes_of("\r\n"))),
            }),
        ),
{
    lemma_grammar_bytes();
    lemma_method_token(method_text, method);
    let crlf = bytes_of("\r\n");
    let line = method_text + bytes_of(" ") + target;
    let m = method_text.len() as int;
    let t = target.len() as int;
    assert forall|j: int| 0 <= j < line.len() implies !occurs_at(line + crlf, j, crlf) by {
        let whole = line + crlf;
        if occurs_at(whole, j, crlf) {
            assert(whole.subrange(j, j + 2)[0] == 13);
            assert(whole.subrange(j, j + 2)[1] == 10);
            if j < m {
                assert(whole[j] == method_text[j]);
            } else if j == m {
            } else if j < m + t {
                assert(whole[j] == target[j - m - 1]);
                assert(whole[j + 1] == target[j - m]);
                assert(target.subrange(j - m - 1, j - m + 1) =~= crlf);
                assert(occurs_at(target, j - m - 1, crlf));
            } else {
                assert(whole[j] == target[t - 1]);
            }
        }
    }
    lemma_split_clean(line, crlf, rest);
    let lines = split(line + crlf + rest, crlf);
    assert(lines[0] == line);
    assert(lines.skip(1) =~= split(rest, crlf));
    lemma_tokens_two(method_text, target);
}

/// Parses one framed request.
pub fn parse(request: &str) -> (r: Result<HttpRequest, ParseError>)
    ensures
        match r {
            Ok(req) => parse_spec(bytes_of(request)) == Ok::<RequestModel, ParseError>(req@),
            Err(e) => parse_spec(bytes_of(request)) == Err::<RequestModel, ParseError>(e),
        },
{
    proof {
        lemma_grammar_bytes();
    }
    let raw = request.as_bytes();
    let lines = split_on(raw, lit("\r\n"));
    match parse_general(lines[0]) {
        Ok(general) => {
            let header_lines = slice_subrange(lines.as_slice(), 1, lines.len());
            proof {
                assert(views_of(header_lines@) =~= views_of(lines@).skip(1));
            }
            let headers = parse_headers(header_lines);
            Ok(HttpRequest { general, headers })
        },
        Err(e) => Err(e),
    }
}

/// Collects the headers of the lines that follow the general line.
pub fn parse_headers(headers: &[&[u8]]) -> (r: HeaderMap)
    ensures
        r@ == headers_of(views_of(headers@)),
{
    proof {
        lemma_grammar_bytes();
    }
    let ghost all = views_of(headers@);
    let mut out = HeaderMap::new();
    let mut k: usize = 0;
    assert(all.take(0) =~= Seq::<Seq<u8>>::empty());
    while k < headers.len()
        invariant
            k <= headers.len(),
            all == views_of(headers@),
            bytes_of(":") =~= seq![58u8],
            out@ == headers_of(all.take(k as int)),
        decreases headers.len() - k,
    {
        let line = headers[k];
        proof {
            assert(all.take(k + 1).drop_last() =~= all.take(k as int));
            assert(all.take(k + 1).last() == line@);
        }
        let cut = find_first(line, lit(":"));
        if cut < line.len() {
            let name = to_lower(trimmed(slice_subrange(line, 0, cut)));
            let value = to_vec(trimmed(slice_subrange(line, cut + 1, line.len())));
            out.insert(name, value);
        }
        k += 1;
    }
    assert(all.take(headers.len() as int) =~= all);
    out
}

/// The method that a token names.
pub fn match_method(method: &[u8]) -> (r: Result<HttpMethod, ParseError>)
    ensures
        match r {
            Ok(m) => method_of(method@) == Some(m),
            Err(e) => e == ParseError::UnknownMethod && method_of(method@) is None,
        },
{
    if equals_ignore_case(method, lit("GET")) {
        Ok(HttpMethod::Get)
    } else if equals_ignore_case(method, lit("HEAD")) {
        Ok(HttpMethod::Head)
    } else if equals_ignore_case(method, lit("OPTIONS")) {
        Ok(HttpMethod::Options)
    } else if equals_ignore_case(method, lit("POST")) {
        Ok(HttpMethod::Post)
    } else if equals_ignore_case(method, lit("PUT")) {
        Ok(HttpMethod::Put)
    } else if equals_ignore_case(method, lit("DELETE")) {
        Ok(HttpMethod::Delete)
    } else {
        Err(ParseError::UnknownMethod)
    }
}

/// The version that a token names.
pub fn match_version(version: &[u8]) -> (r: Result<HttpVersion, ParseError>)
    ensures
        match r {
            Ok(v) => version_of(version@) == Some(v),
            Err(e) => e == ParseError::UnknownVersion && version_of(version@) is None,
        },
{
    if equals_ignore_case(version, lit("HTTP/1.1")) {
        Ok(HttpVersion::One)
    } else if equals_ignore_case(version, lit("HTTP/2")) {
        Ok(HttpVersion::Two)
    } else if equals_ignore_case(version, lit("HTTP/3")) {
        Ok(HttpVersion::Three)
    } else {
        Err(ParseError::UnknownVersion)
    }
}

/// The tokens of a line.
pub fn tokenize<'a>(line: &'a [u8]) -> (r: Vec<&'a [u8]>)
    ensures
        views_of(r@) == tokens(line@),
{
    proof {
        lemma_grammar_bytes();
    }
    let pieces = split_on(line, lit(" "));
    let ghost all = views_of(pieces@);
    let mut out: Vec<&'a [u8]> = Vec::new();
    let mut k: usize = 0;
    assert(all.take(0) =~= Seq::<Seq<u8>>::empty());
    assert(views_of(out@) =~= Seq::<Seq<u8>>::empty());
    while k < pieces.len()
        invariant
            k <= pieces.len(),
            all == views_of(pieces@),
            views_of(out@) == tokens_of(all.take(k as int)),
        decreases pieces.len() - k,
    {
        let token = trimmed(pieces[k]);
        let ghost prev = views_of(out@);
        proof {
            assert(all.take(k + 1).drop_last() =~= all.take(k as int));
            assert(all.take(k + 1).last() == pieces@[k as int]@);
        }
        if token.len() > 0 {
            out.push(token);
            proof {
                assert(views_of(out@) =~= prev.push(token@));
            }
        }
        k += 1;
    }
    assert(all.take(pieces.len() as int) =~= all);
    out
}

/// Parses the first line of a request.
pub fn parse_general(general: &[u8]) -> (r: Result<GeneralRequest, ParseError>)
    ensures
        match r {
            Ok(g) => general_of(general@) == Ok::<GeneralModel, ParseError>(g@),
            Err(e) => general_of(general@) == Err::<GeneralModel, ParseError>(e),
        },
{
    let words = tokenize(general);
    let ghost t = views_of(words@);
    if words.len() == 0 {
        return Err(ParseError::EmptyRequest);
    }
    if words.len() != 2 && words.len() != 3 {
        return Err(ParseError::MalformedGeneralLine);
    }
    assert(t[0] == words@[0]@);
    assert(t[1] == words@[1]@);
    let method = match match_method(words[0]) {
        Ok(m) => m,
        Err(e) => {
            return Err(e);
        },
    };
    let params = match get_parameters_from_path(words[1]) {
        Ok(p) => p,
        Err(e) => {
            return Err(e);
        },
    };
    let version = if words.len() == 2 {
        HttpVersion::One
    } else {
        assert(t[2] == words@[2]@);
        match match_version(words[2]) {
            Ok(v) => v,
            Err(e) => {
                return Err(e);
            },
        }
    };
    let path = to_vec(clean_path(words[1]));
    Ok(GeneralRequest { method, path, params, version })
}

} // verus!
