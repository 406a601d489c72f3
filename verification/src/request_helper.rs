//! Query-string handling for request targets.
use crate::parser::ParseError;
use crate::text::{bytes_of, find, find_first, lit, split, split_on, to_vec, views_of};
use vstd::prelude::*;
use vstd::slice::slice_subrange;

verus! {

/// A name and its value, as written in the request.
#[derive(Debug, Clone)]
pub struct RequestParameterValue {
    pub name: Vec<u8>,
    pub value: Vec<u8>,
}

/// A request parameter, tagged with where it was found.
#[derive(Debug, Clone)]
pub enum RequestParameter {
    Query(RequestParameterValue),
    Path(RequestParameterValue),
}

/// The mathematical content of a request parameter.
pub enum ParameterModel {
    Query(Seq<u8>, Seq<u8>),
    Path(Seq<u8>, Seq<u8>),
}

impl ParameterModel {
    /// The parameter's name.
    pub open spec fn name(self) -> Seq<u8> {
        match self {
            ParameterModel::Query(n, _) => n,
            ParameterModel::Path(n, _) => n,
        }
    }

    /// The parameter's value.
    pub open spec fn value(self) -> Seq<u8> {
        match self {
            ParameterModel::Query(_, v) => v,
            ParameterModel::Path(_, v) => v,
        }
    }
}

impl View for RequestParameter {
    type V = ParameterModel;

    open spec fn view(&self) -> ParameterModel {
        match self {
            RequestParameter::Query(v) => ParameterModel::Query(v.name@, v.value@),
            RequestParameter::Path(v) => ParameterModel::Path(v.name@, v.value@),
        }
    }
}

/// The request target without its query: everything before the first `?`.
pub open spec fn path_of(target: Seq<u8>) -> Seq<u8> {
    target.take(find(target, bytes_of("?")))
}

/// The query of a request target: everything after the first `?`, if there
/// is one.
pub open spec fn query_of(target: Seq<u8>) -> Option<Seq<u8>> {
    let i = find(target, bytes_of("?"));
    if i < target.len() {
        Some(target.skip(i + 1))
    } else {
        None
    }
}

/// One `name=value` segment, cut at its first `=`; `None` without a `=`.
pub open spec fn parameter_of(segment: Seq<u8>) -> Option<ParameterModel> {
    let i = find(segment, bytes_of("="));
    if i < segment.len() {
        Some(ParameterModel::Query(segment.take(i), segment.skip(i + 1)))
    } else {
        None
    }
}

/// The parameters of a list of segments, in order; `None` as soon as one
/// segment has no `=`.
pub open spec fn parameters_of(segments: Seq<Seq<u8>>) -> Option<Seq<ParameterModel>>
    decreases segments.len(),
{
    if segments.len() == 0 {
        Some(Seq::empty())
    } else {
        match (parameters_of(segments.drop_last()), parameter_of(segments.last())) {
            (Some(prev), Some(p)) => Some(prev.push(p)),
            _ => None,
        }
    }
}

/// The query parameters of a request target, in the order written. A
/// target without `?` has none; a query with a segment that lacks `=` is
/// malformed (`None`).
pub open spec fn query_parameters(target: Seq<u8>) -> Option<Seq<ParameterModel>> {
    match query_of(target) {
        None => Some(Seq::empty()),
        Some(q) => parameters_of(split(q, bytes_of("&"))),
    }
}

/// The separators are single bytes.
pub proof fn lemma_separators()
    ensures
        bytes_of("?") =~= seq![63u8],
        bytes_of("&") =~= seq![38u8],
        bytes_of("=") =~= seq![61u8],
{
    reveal_strlit("?");
    reveal_strlit("&");
    reveal_strlit("=");
    crate::text::lemma_ascii_bytes("?");
    crate::text::lemma_ascii_bytes("&");
    crate::text::lemma_ascii_bytes("=");
}

/// The query parameters of a request target.
pub fn get_parameters_from_path(path: &[u8]) -> (r: Result<Vec<RequestParameter>, ParseError>)
    ensures
        match r {
            Ok(params) => query_parameters(path@) == Some(crate::types::parameter_models(params@)),
            Err(e) => e == ParseError::MalformedQueryParameter && query_parameters(path@) is None,
        },
{
    get_query_params(path)
}

/// Splits the query after the first `?` at each `&`, and each segment at
/// its first `=`.
pub fn get_query_params(path: &[u8]) -> (r: Result<Vec<RequestParameter>, ParseError>)
    ensures
        match r {
            Ok(params) => query_parameters(path@) == Some(crate::types::parameter_models(params@)),
            Err(e) => e == ParseError::MalformedQueryParameter && query_parameters(path@) is None,
        },
{
    proof {
        lemma_separators();
    }
    let mut out: Vec<RequestParameter> = Vec::new();
    let mark = find_first(path, lit("?"));
    if mark >= path.len() {
        assert(crate::types::parameter_models(out@) =~= Seq::<ParameterModel>::empty());
        return Ok(out);
    }
    let query = slice_subrange(path, mark + 1, path.len());
    let segments = split_on(query, lit("&"));
    let ghost all = views_of(segments@);
    let mut k: usize = 0;
    assert(all.take(0) =~= Seq::<Seq<u8>>::empty());
    assert(crate::types::parameter_models(out@) =~= Seq::<ParameterModel>::empty());
    while k < segments.len()
        invariant
            k <= segments.len(),
            all == views_of(segments@),
            all == split(path@.skip(mark + 1), bytes_of("&")),
            mark < path.len(),
            mark == find(path@, bytes_of("?")),
            bytes_of("=") =~= seq![61u8],
            parameters_of(all.take(k as int)) == Some(crate::types::parameter_models(out@)),
        decreases segments.len() - k,
    {
        let segment = segments[k];
        let cut = find_first(segment, lit("="));
        proof {
            assert(all.take(k + 1).drop_last() =~= all.take(k as int));
            assert(all.take(k + 1).last() == segment@);
        }
        if cut >= segment.len() {
            proof {
                lemma_parameters_of_prefix(all, k + 1);
            }
            return Err(ParseError::MalformedQueryParameter);
        }
        let name = to_vec(slice_subrange(segment, 0, cut));
        let value = to_vec(slice_subrange(segment, cut + 1, segment.len()));
        let ghost prev = crate::types::parameter_models(out@);
        out.push(RequestParameter::Query(RequestParameterValue { name, value }));
        proof {
            assert(crate::types::parameter_models(out@) =~= prev.push(
                ParameterModel::Query(segment@.take(cut as int), segment@.skip(cut + 1)),
            ));
        }
        k += 1;
    }
    assert(all.take(segments.len() as int) =~= all);
    Ok(out)
}

/// Once a prefix of the segments is malformed, so is the whole list.
pub proof fn lemma_parameters_of_prefix(segments: Seq<Seq<u8>>, k: int)
    requires
        0 <= k <= segments.len(),
        parameters_of(segments.take(k)) is None,
    ensures
        parameters_of(segments) is None,
    decreases segments.len() - k,
{
    if k == segments.len() {
        assert(segments.take(k) =~= segments);
    } else {
        assert(segments.take(k + 1).drop_last() =~= segments.take(k));
        lemma_parameters_of_prefix(segments, k + 1);
    }
}

/// The request target without its query.
pub fn clean_path(path: &[u8]) -> (r: &[u8])
    ensures
        r@ == path_of(path@),
{
    proof {
        lemma_separators();
    }
    let mark = find_first(path, lit("?"));
    slice_subrange(path, 0, mark)
}

} // verus!
