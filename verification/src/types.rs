//! The data shapes of a parsed request.
use crate::request_helper::{ParameterModel, RequestParameter};
use crate::keyed::{
    keys_unique, lemma_absent_key, lemma_index_of_key, lemma_no_pairs, lemma_pairs_count,
    lemma_push_pair, lemma_replace_pair, pairs_map,
};
use crate::text::{append, bytes_eq, bytes_of, lit};
use vstd::pervasive::VecAdditionalExecFns;
use vstd::prelude::*;

verus! {

/// The request methods the parser knows.
#[derive(Structural, PartialEq, Eq, Clone, Copy, Debug)]
pub enum HttpMethod {
    Head,
    Options,
    Get,
    Post,
    Put,
    Delete,
}

/// The protocol versions the parser knows.
#[derive(Structural, PartialEq, Eq, Clone, Copy, Debug)]
pub enum HttpVersion {
    One,
    Two,
    Three,
}

impl HttpMethod {
    /// The method as it is written on the wire, in upper case.
    pub open spec fn token(self) -> Seq<u8> {
        match self {
            HttpMethod::Get => bytes_of("GET"),
            HttpMethod::Head => bytes_of("HEAD"),
            HttpMethod::Options => bytes_of("OPTIONS"),
            HttpMethod::Post => bytes_of("POST"),
            HttpMethod::Put => bytes_of("PUT"),
            HttpMethod::Delete => bytes_of("DELETE"),
        }
    }

    /// The method's name as text.
    pub fn to_text(&self) -> (r: &'static [u8])
        ensures
            r@ == self.token(),
    {
        match self {
            HttpMethod::Get => lit("GET"),
            HttpMethod::Head => lit("HEAD"),
            HttpMethod::Options => lit("OPTIONS"),
            HttpMethod::Post => lit("POST"),
            HttpMethod::Put => lit("PUT"),
            HttpMethod::Delete => lit("DELETE"),
        }
    }
}

impl HttpVersion {
    /// The version as it is written on the wire, in upper case.
    pub open spec fn token(self) -> Seq<u8> {
        match self {
            HttpVersion::One => bytes_of("HTTP/1.1"),
            HttpVersion::Two => bytes_of("HTTP/2"),
            HttpVersion::Three => bytes_of("HTTP/3"),
        }
    }

    /// The version's display label.
    pub open spec fn label(self) -> Seq<u8> {
        match self {
            HttpVersion::One => bytes_of("Http/1.1"),
            HttpVersion::Two => bytes_of("Http/2"),
            HttpVersion::Three => bytes_of("Http/3"),
        }
    }

    /// The version's display label as text.
    pub fn to_text(&self) -> (r: &'static [u8])
        ensures
            r@ == self.label(),
    {
        match self {
            HttpVersion::One => lit("Http/1.1"),
            HttpVersion::Two => lit("Http/2"),
            HttpVersion::Three => lit("Http/3"),
        }
    }
}

/// One header line: a lower-cased name and its value.
pub struct Header {
    pub name: Vec<u8>,
    pub value: Vec<u8>,
}

/// The headers of a request, keyed by lower-cased name. A name occurs at
/// most once; a later value for the same name replaces the earlier one.
pub struct HeaderMap {
    entries: Vec<Header>,
}

/// The names and values of a list of headers, as pairs.
pub open spec fn header_pairs(entries: Seq<Header>) -> Seq<(Seq<u8>, Seq<u8>)> {
    entries.map_values(|h: Header| (h.name@, h.value@))
}

impl View for HeaderMap {
    type V = Map<Seq<u8>, Seq<u8>>;

    closed spec fn view(&self) -> Map<Seq<u8>, Seq<u8>> {
        pairs_map(header_pairs(self.entries@))
    }
}

impl HeaderMap {
    #[verifier::type_invariant]
    closed spec fn inv(self) -> bool {
        keys_unique(header_pairs(self.entries@))
    }

    /// An empty map.
    pub fn new() -> (r: HeaderMap)
        ensures
            r@ == Map::<Seq<u8>, Seq<u8>>::empty(),
    {
        let r = HeaderMap { entries: Vec::new() };
        proof {
            lemma_no_pairs(header_pairs(r.entries@));
        }
        r
    }

    /// The number of headers held: one for each name.
    pub fn len(&self) -> (r: usize)
        ensures
            self@.dom().finite(),
            r == self@.dom().len(),
    {
        proof {
            use_type_invariant(self);
            lemma_pairs_count(header_pairs(self.entries@));
        }
        self.entries.len()
    }

    /// The value stored under `name`, if any.
    pub fn get(&self, name: &[u8]) -> (r: Option<&Vec<u8>>)
        ensures
            r is Some <==> self@.dom().contains(name@),
            r matches Some(v) ==> v@ == self@[name@],
    {
        proof {
            use_type_invariant(self);
        }
        let ghost pairs = header_pairs(self.entries@);
        let mut i: usize = 0;
        while i < self.entries.len()
            invariant
                i <= self.entries.len(),
                pairs == header_pairs(self.entries@),
                keys_unique(pairs),
                forall|j: int| 0 <= j < i ==> (#[trigger] pairs[j]).0 != name@,
            decreases self.entries.len() - i,
        {
            if bytes_eq(self.entries[i].name.as_slice(), name) {
                proof {
                    lemma_index_of_key(pairs, i as int);
                }
                return Some(&self.entries[i].value);
            }
            i += 1;
        }
        proof {
            lemma_absent_key(pairs, name@);
        }
        None
    }

    /// Stores `value` under `name`, replacing what was stored there.
    pub fn insert(&mut self, name: Vec<u8>, value: Vec<u8>)
        ensures
            final(self)@ == old(self)@.insert(name@, value@),
    {
        proof {
            use_type_invariant(&*self);
        }
        let ghost start = self@;
        let mut taken = HeaderMap { entries: Vec::new() };
        proof {
            lemma_no_pairs(header_pairs(taken.entries@));
        }
        core::mem::swap(self, &mut taken);
        let mut entries = taken.entries;
        let ghost before = header_pairs(entries@);
        let ghost key = name@;
        let ghost val = value@;
        let mut i: usize = 0;
        while i < entries.len()
            invariant
                i <= entries.len(),
                header_pairs(entries@) == before,
                keys_unique(before),
                pairs_map(before) == start,
                start == old(self)@,
                key == name@,
                val == value@,
                forall|j: int| 0 <= j < i ==> (#[trigger] before[j]).0 != name@,
            decreases entries.len() - i,
        {
            if bytes_eq(entries[i].name.as_slice(), name.as_slice()) {
                entries.set(i, Header { name, value });
                proof {
                    lemma_replace_pair(before, header_pairs(entries@), i as int);
                }
                *self = HeaderMap { entries };
                return;
            }
            i += 1;
        }
        entries.push(Header { name, value });
        proof {
            assert(header_pairs(entries@).drop_last() =~= before);
            lemma_push_pair(before, header_pairs(entries@));
        }
        *self = HeaderMap { entries };
    }
}

/// The mathematical content of a request's first line.
pub struct GeneralModel {
    pub method: HttpMethod,
    pub path: Seq<u8>,
    pub params: Seq<ParameterModel>,
    pub version: HttpVersion,
}

/// The mathematical content of a request.
pub struct RequestModel {
    pub general: GeneralModel,
    pub headers: Map<Seq<u8>, Seq<u8>>,
}

/// The first line of a request: method, query-stripped path, the query
/// parameters in the order they were written, and the protocol version.
pub struct GeneralRequest {
    pub method: HttpMethod,
    pub path: Vec<u8>,
    pub params: Vec<RequestParameter>,
    pub version: HttpVersion,
}

/// A parsed request.
pub struct HttpRequest {
    pub general: GeneralRequest,
    pub headers: HeaderMap,
}

/// The models of a list of parameters.
pub open spec fn parameter_models(params: Seq<RequestParameter>) -> Seq<ParameterModel> {
    params.map_values(|p: RequestParameter| p@)
}

impl View for GeneralRequest {
    type V = GeneralModel;

    open spec fn view(&self) -> GeneralModel {
        GeneralModel {
            method: self.method,
            path: self.path@,
            params: parameter_models(self.params@),
            version: self.version,
        }
    }
}

impl View for HttpRequest {
    type V = RequestModel;

    open spec fn view(&self) -> RequestModel {
        RequestModel { general: self.general@, headers: self.headers@ }
    }
}

/// The one-line description of a request.
pub open spec fn request_text(general: GeneralModel) -> Seq<u8> {
    bytes_of("HttpRequest [method=\"") + general.method.token() + bytes_of("\", path=\"")
        + general.path + bytes_of("\", version=\"") + general.version.label() + bytes_of("\"]")
}

impl HttpRequest {
    /// A one-line description of the request: its method, path and version.
    pub fn to_text(&self) -> (r: Vec<u8>)
        ensures
            r@ == request_text(self@.general),
    {
        let mut out: Vec<u8> = Vec::new();
        append(&mut out, lit("HttpRequest [method=\""));
        append(&mut out, self.general.method.to_text());
        append(&mut out, lit("\", path=\""));
        append(&mut out, self.general.path.as_slice());
        append(&mut out, lit("\", version=\""));
        append(&mut out, self.general.version.to_text());
        append(&mut out, lit("\"]"));
        assert(out@ =~= request_text(self@.general));
        out
    }
}

} // verus!
