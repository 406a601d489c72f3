//! The endpoint registry and the resolver.
//!
//! A registry collects endpoints before the server starts; a conflicting
//! registration is skipped, so the first registration of a path wins. A
//! provider is a frozen copy of the registry against which requests are
//! resolved.
//!
//! Endpoints other than mounted directories are kept apart: no two of them
//! are found under a common path or alias. A mounted directory is matched
//! by prefix and so overlaps with what lies below it; it is only kept from
//! having the very path of another endpoint.
use crate::keyed::{
    keys_unique, lemma_absent_key, lemma_index_of_key, lemma_no_pairs, lemma_push_pair,
    lemma_replace_pair, pairs_map,
};
use crate::path::{
    absolute_of, file_name, file_name_of, is_sep, map_to_absolute, parent, parent_of,
    path_starts_with, remap, remap_spec, starts_with_path,
};
use crate::resource::{accepted, handler_returns, ResourceHandler};
use crate::request_helper::RequestParameter;
use crate::text::{append, bytes_eq, bytes_of, lit, starts_with, to_vec, views_of};
use crate::types::{HttpMethod, HttpRequest};
use std::sync::Arc;
use vstd::pervasive::VecAdditionalExecFns;
use vstd::prelude::*;

verus! {

/// A single file, served as it is.
#[derive(Debug, Clone)]
pub struct StaticEndpoint {
    pub asset_path: Vec<u8>,
}

/// A directory, whose files are served under a path prefix.
#[derive(Debug, Clone)]
pub struct AssetEndpoint {
    pub asset_base: Vec<u8>,
}

/// A handler, named by its id in the handler table.
#[derive(Debug, Clone)]
pub struct ResourceEndpoint {
    pub resource_handler_id: Vec<u8>,
}

/// What an endpoint serves.
#[derive(Debug, Clone)]
pub enum EndpointType {
    StaticAsset(StaticEndpoint),
    Assets(AssetEndpoint),
    Resource(ResourceEndpoint),
}

/// A registered route: its path, further paths under which it is found,
/// the methods it answers, and what it serves.
#[derive(Debug, Clone)]
pub struct Endpoint {
    pub path: Vec<u8>,
    pub endpoint_type: EndpointType,
    pub aliases: Vec<Vec<u8>>,
    pub methods: Vec<HttpMethod>,
}

/// The mathematical content of what an endpoint serves: the file, the
/// directory, or the handler's id.
pub enum KindModel {
    StaticAsset(Seq<u8>),
    Assets(Seq<u8>),
    Resource(Seq<u8>),
}

/// The mathematical content of an endpoint.
pub struct EndpointModel {
    pub path: Seq<u8>,
    pub kind: KindModel,
    pub aliases: Seq<Seq<u8>>,
    pub methods: Seq<HttpMethod>,
}

impl View for EndpointType {
    type V = KindModel;

    open spec fn view(&self) -> KindModel {
        match self {
            EndpointType::StaticAsset(e) => KindModel::StaticAsset(e.asset_path@),
            EndpointType::Assets(e) => KindModel::Assets(e.asset_base@),
            EndpointType::Resource(e) => KindModel::Resource(e.resource_handler_id@),
        }
    }
}

/// The views of a list of byte strings.
pub open spec fn texts_of(list: Seq<Vec<u8>>) -> Seq<Seq<u8>> {
    list.map_values(|t: Vec<u8>| t@)
}

impl View for Endpoint {
    type V = EndpointModel;

    open spec fn view(&self) -> EndpointModel {
        EndpointModel {
            path: self.path@,
            kind: self.endpoint_type@,
            aliases: texts_of(self.aliases@),
            methods: self.methods@,
        }
    }
}

/// The models of a list of endpoints.
pub open spec fn endpoint_models(endpoints: Seq<Endpoint>) -> Seq<EndpointModel> {
    endpoints.map_values(|e: Endpoint| e@)
}

/// The endpoint is found under `p`: `p` is its path or one of its aliases.
pub open spec fn owns_path(e: EndpointModel, p: Seq<u8>) -> bool {
    e.path == p || e.aliases.contains(p)
}

/// All the paths under which the endpoint is found.
pub open spec fn all_paths(e: EndpointModel) -> Set<Seq<u8>> {
    Set::new(|p: Seq<u8>| owns_path(e, p))
}

/// Two endpoints are found under a common path.
pub open spec fn shares_path(a: EndpointModel, b: EndpointModel) -> bool {
    exists|p: Seq<u8>| owns_path(a, p) && owns_path(b, p)
}

/// Two endpoints cannot stand in one registry. A mounted directory is
/// matched by prefix and clashes only with an endpoint of the very same
/// path; any two other endpoints clash when they are found under a common
/// path.
pub open spec fn clashes(a: EndpointModel, b: EndpointModel) -> bool {
    if a.kind is Assets || b.kind is Assets {
        a.path == b.path
    } else {
        shares_path(a, b)
    }
}

/// The endpoint clashes with one of the existing ones.
pub open spec fn conflicts(existing: Seq<EndpointModel>, e: EndpointModel) -> bool {
    exists|i: int| 0 <= i < existing.len() && clashes(#[trigger] existing[i], e)
}

/// The endpoints after an attempt to register `e`: a conflicting endpoint
/// is skipped, another one is appended.
pub open spec fn registered(existing: Seq<EndpointModel>, e: EndpointModel) -> Seq<EndpointModel> {
    if conflicts(existing, e) {
        existing
    } else {
        existing.push(e)
    }
}

/// No two endpoints clash: apart from mounted directories no two are found
/// under a common path, and no mounted directory has the very path of
/// another endpoint.
pub open spec fn disjoint(endpoints: Seq<EndpointModel>) -> bool {
    forall|i: int, j: int|
        0 <= i < j < endpoints.len() ==> !clashes(#[trigger] endpoints[i], #[trigger] endpoints[j])
}

/// The endpoint answers a request for `path` with `method`. A directory
/// answers every path that lies under its own, whatever the method; any
/// other endpoint answers its path and its aliases, for its methods.
pub open spec fn matches(e: EndpointModel, path: Seq<u8>, method: HttpMethod) -> bool {
    match e.kind {
        KindModel::Assets(_) => path_starts_with(path, e.path),
        _ => owns_path(e, path) && e.methods.contains(method),
    }
}

/// Index of the first endpoint that answers the request, or the number of
/// endpoints when none does.
pub open spec fn first_match(endpoints: Seq<EndpointModel>, path: Seq<u8>, method: HttpMethod) -> int
    decreases endpoints.len(),
{
    if endpoints.len() == 0 {
        0
    } else if matches(endpoints[0], path, method) {
        0
    } else {
        1 + first_match(endpoints.skip(1), path, method)
    }
}

/// The endpoint that answers the request: the first one, in the order of
/// registration, that matches.
pub open spec fn resolve(endpoints: Seq<EndpointModel>, path: Seq<u8>, method: HttpMethod) -> Option<
    EndpointModel,
> {
    let i = first_match(endpoints, path, method);
    if 0 <= i < endpoints.len() {
        Some(endpoints[i])
    } else {
        None
    }
}

/// A path that does not start with a separator gets one in front.
pub open spec fn rooted(mapping: Seq<u8>) -> Seq<u8> {
    if bytes_of("/").is_prefix_of(mapping) {
        mapping
    } else {
        bytes_of("/") + mapping
    }
}

/// The first match lies within `0 ..= len`, nothing matches before it, and
/// below `len` it is a match.
pub proof fn lemma_first_match(endpoints: Seq<EndpointModel>, path: Seq<u8>, method: HttpMethod)
    ensures
        0 <= first_match(endpoints, path, method) <= endpoints.len(),
        forall|j: int|
            0 <= j < first_match(endpoints, path, method) ==> !matches(
                #[trigger] endpoints[j],
                path,
                method,
            ),
        first_match(endpoints, path, method) < endpoints.len() ==> matches(
            endpoints[first_match(endpoints, path, method)],
            path,
            method,
        ),
    decreases endpoints.len(),
{
    if endpoints.len() > 0 && !matches(endpoints[0], path, method) {
        let t = endpoints.skip(1);
        lemma_first_match(t, path, method);
        assert forall|j: int| 0 <= j < 1 + first_match(t, path, method) implies !matches(
            #[trigger] endpoints[j],
            path,
            method,
        ) by {
            if j > 0 {
                assert(endpoints[j] == t[j - 1]);
            }
        }
    }
}

/// The first match is where nothing matches earlier.
pub proof fn lemma_first_match_is(
    endpoints: Seq<EndpointModel>,
    path: Seq<u8>,
    method: HttpMethod,
    i: int,
)
    requires
        0 <= i <= endpoints.len(),
        forall|j: int| 0 <= j < i ==> !matches(#[trigger] endpoints[j], path, method),
        i == endpoints.len() || matches(endpoints[i], path, method),
    ensures
        first_match(endpoints, path, method) == i,
{
    lemma_first_match(endpoints, path, method);
    let k = first_match(endpoints, path, method);
    if k < i {
        assert(!matches(endpoints[k], path, method));
    } else if k > i {
        assert(!matches(endpoints[i], path, method));
    }
}

/// Registration keeps the endpoints free of clashes.
pub proof fn lemma_registered_disjoint(existing: Seq<EndpointModel>, e: EndpointModel)
    requires
        disjoint(existing),
    ensures
        disjoint(registered(existing, e)),
{
    if !conflicts(existing, e) {
        let after = existing.push(e);
        assert forall|i: int, j: int| 0 <= i < j < after.len() implies !clashes(
            #[trigger] after[i],
            #[trigger] after[j],
        ) by {
            assert(after[i] == existing[i]);
            if j < existing.len() {
                assert(after[j] == existing[j]);
            } else {
                assert(!clashes(existing[i], e));
            }
        }
    }
}

/// An endpoint that a request is resolved to is one of the endpoints: if
/// it names a handler, the handler is present.
pub proof fn lemma_resolved_present<F: Fn(&Vec<RequestParameter>) -> Vec<u8>>(
    endpoints: Seq<EndpointModel>,
    handlers: Map<Seq<u8>, ResourceHandler<F>>,
    path: Seq<u8>,
    method: HttpMethod,
)
    requires
        handlers_present(endpoints, handlers),
    ensures
        resolve(endpoints, path, method) matches Some(e) ==> matches(e, path, method) && match e.kind {
            KindModel::Resource(id) => handlers.dom().contains(id),
            _ => true,
        },
{
    lemma_first_match(endpoints, path, method);
    let i = first_match(endpoints, path, method);
    if i < endpoints.len() {
        assert(match endpoints[i].kind {
            KindModel::Resource(id) => handlers.dom().contains(id),
            _ => true,
        });
    }
}

/// A conflicting registration changes nothing: what was resolved before
/// is resolved after.
pub proof fn lemma_conflict_skipped(existing: Seq<EndpointModel>, e: EndpointModel)
    requires
        conflicts(existing, e),
    ensures
        registered(existing, e) == existing,
        forall|path: Seq<u8>, method: HttpMethod|
            resolve(registered(existing, e), path, method) == resolve(existing, path, method),
{
}

/// The first registration wins: an endpoint that clashes with one
/// registered just before it is skipped.
pub proof fn lemma_first_registration_wins(
    existing: Seq<EndpointModel>,
    first: EndpointModel,
    second: EndpointModel,
)
    requires
        !conflicts(existing, first),
        clashes(first, second),
    ensures
        registered(registered(existing, first), second) == existing.push(first),
{
    let after = existing.push(first);
    assert(clashes(after[existing.len() as int], second));
}

/// Requests are resolved in the order of registration: a request that the
/// endpoints so far do not answer, and that a newly accepted endpoint
/// matches, is resolved to that endpoint; a request that they do answer
/// keeps its answer.
pub proof fn lemma_resolve_registered(
    existing: Seq<EndpointModel>,
    e: EndpointModel,
    path: Seq<u8>,
    method: HttpMethod,
)
    requires
        !conflicts(existing, e),
    ensures
        resolve(existing, path, method) is Some ==> resolve(registered(existing, e), path, method)
            == resolve(existing, path, method),
        resolve(existing, path, method) is None && matches(e, path, method) ==> resolve(
            registered(existing, e),
            path,
            method,
        ) == Some(e),
        resolve(existing, path, method) is None && !matches(e, path, method) ==> resolve(
            registered(existing, e),
            path,
            method,
        ) is None,
{
    let after = existing.push(e);
    lemma_first_match(existing, path, method);
    let k = first_match(existing, path, method);
    assert forall|j: int| 0 <= j < k implies !matches(#[trigger] after[j], path, method) by {
        assert(after[j] == existing[j]);
    }
    if k < existing.len() {
        assert(after[k] == existing[k]);
        lemma_first_match_is(after, path, method, k);
    } else if matches(e, path, method) {
        lemma_first_match_is(after, path, method, k);
    } else {
        assert forall|j: int| 0 <= j < after.len() implies !matches(
            #[trigger] after[j],
            path,
            method,
        ) by {
            if j < existing.len() {
                assert(after[j] == existing[j]);
            }
        }
        lemma_first_match_is(after, path, method, after.len() as int);
    }
}

/// A mounted directory answers its own path and every path that continues
/// it after a separator, whatever the method; it does not answer a path
/// that continues its last segment.
pub proof fn lemma_mount_prefix(mount: EndpointModel, rest: Seq<u8>, method: HttpMethod)
    requires
        mount.kind is Assets,
    ensures
        matches(mount, mount.path, method),
        matches(mount, mount.path + bytes_of("/") + rest, method),
        mount.path.len() > 0 && !is_sep(mount.path.last()) && rest.len() > 0 && !is_sep(rest[0])
            ==> !matches(mount, mount.path + rest, method),
{
    crate::path::lemma_sep_bytes();
    let m = mount.path;
    assert(m.is_prefix_of(m));
    let longer = m + bytes_of("/") + rest;
    assert(longer.subrange(0, m.len() as int) =~= m);
    assert(longer[m.len() as int] == 47);
    let other = m + rest;
    if rest.len() > 0 {
        assert(other[m.len() as int] == rest[0]);
    }
}

/// The file `index.html` of a mounted directory is found under its own
/// path and under the path of the mount: for a directory `dir` mounted as
/// `mapping`, these are `/mapping/index.html` and `/mapping`, and a GET
/// request for either is matched by the same endpoint.
pub proof fn lemma_index_alias(dir: Seq<u8>, mapping: Seq<u8>)
    requires
        dir.len() > 0,
        !is_sep(dir.last()),
        mapping.len() > 0,
        !is_sep(mapping[0]),
        !is_sep(mapping.last()),
    ensures
        ({
            let e = static_endpoint_of(dir + bytes_of("/index.html"), mapping);
            &&& e.path == bytes_of("/") + mapping + bytes_of("/index.html")
            &&& e.aliases == seq![bytes_of("/") + mapping]
            &&& matches(e, bytes_of("/") + mapping + bytes_of("/index.html"), HttpMethod::Get)
            &&& matches(e, bytes_of("/") + mapping, HttpMethod::Get)
        }),
{
    crate::path::lemma_sep_bytes();
    lemma_index_bytes();
    let name = bytes_of("index.html");
    let slash = bytes_of("/");
    let tail = bytes_of("/index.html");
    assert(tail =~= slash + name);
    let entry = dir + tail;
    let n = dir.len() as int;
    assert(entry[n] == 47);
    assert forall|j: int| n < j < entry.len() implies !is_sep(#[trigger] entry[j]) by {
        assert(entry[j] == name[j - n - 1]);
    }
    crate::path::lemma_last_sep_is(entry, n);
    assert(entry.take(n) =~= dir);
    assert(parent_of(entry) == dir);
    assert(entry.skip(n + 1) =~= name);
    assert(file_name_of(entry) == name);
    assert(entry.subrange(0, n) =~= dir);
    assert(path_starts_with(entry, dir));
    let after = entry.skip(n);
    assert(after =~= tail);
    assert(after[0] == 47);
    assert(after.skip(1) =~= name);
    crate::path::lemma_strip_leading_seps_is(after, 1);
    assert(crate::path::strip_base(entry, dir) == name);
    let inner = crate::path::join(mapping, name);
    assert(inner =~= mapping + slash + name);
    assert(inner[0] == mapping[0]);
    let public = crate::path::join(slash, inner);
    assert(public =~= slash + mapping + tail);
    let m = mapping.len() as int;
    assert(public[m + 1] == 47);
    assert forall|j: int| m + 1 < j < public.len() implies !is_sep(#[trigger] public[j]) by {
        assert(public[j] == name[j - m - 2]);
    }
    crate::path::lemma_last_sep_is(public, m + 1);
    assert(public.take(m + 1) =~= slash + mapping);
    let e = static_endpoint_of(entry, mapping);
    assert(e.aliases[0] == slash + mapping);
    assert(e.methods[0] == HttpMethod::Get);
}

/// Taking up the file `index.html` of a directory `dir` mounted as
/// `mapping`, where its endpoint clashes with no registered one and no
/// registered endpoint answers its two paths, makes a GET request for
/// `/mapping/index.html` and one for `/mapping` resolve to the same
/// endpoint, which serves that file.
pub proof fn lemma_index_registered(endpoints: Seq<EndpointModel>, dir: Seq<u8>, mapping: Seq<u8>)
    requires
        dir.len() > 0,
        !is_sep(dir.last()),
        mapping.len() > 0,
        !is_sep(mapping[0]),
        !is_sep(mapping.last()),
        !conflicts(endpoints, static_endpoint_of(dir + bytes_of("/index.html"), mapping)),
        resolve(
            endpoints,
            bytes_of("/") + mapping + bytes_of("/index.html"),
            HttpMethod::Get,
        ) is None,
        resolve(endpoints, bytes_of("/") + mapping, HttpMethod::Get) is None,
    ensures
        ({
            let entry = dir + bytes_of("/index.html");
            let e = static_endpoint_of(entry, mapping);
            let after = with_static_entry(endpoints, entry, mapping);
            &&& e.kind == KindModel::StaticAsset(entry)
            &&& resolve(after, bytes_of("/") + mapping + bytes_of("/index.html"), HttpMethod::Get)
                == Some(e)
            &&& resolve(after, bytes_of("/") + mapping, HttpMethod::Get) == Some(e)
        }),
{
    let entry = dir + bytes_of("/index.html");
    let e = static_endpoint_of(entry, mapping);
    lemma_index_alias(dir, mapping);
    lemma_resolve_registered(
        endpoints,
        e,
        bytes_of("/") + mapping + bytes_of("/index.html"),
        HttpMethod::Get,
    );
    lemma_resolve_registered(endpoints, e, bytes_of("/") + mapping, HttpMethod::Get);
}

/// The name of an index file, byte by byte.
pub proof fn lemma_index_bytes()
    ensures
        bytes_of("index.html") =~= seq![
            105u8,
            110u8,
            100u8,
            101u8,
            120u8,
            46u8,
            104u8,
            116u8,
            109u8,
            108u8,
        ],
        bytes_of("/index.html") =~= seq![
            47u8,
            105u8,
            110u8,
            100u8,
            101u8,
            120u8,
            46u8,
            104u8,
            116u8,
            109u8,
            108u8,
        ],
{
    reveal_strlit("index.html");
    reveal_strlit("/index.html");
    crate::text::lemma_ascii_bytes("index.html");
    crate::text::lemma_ascii_bytes("/index.html");
}

/// A copy of a list of byte strings.
pub fn copy_texts(list: &Vec<Vec<u8>>) -> (r: Vec<Vec<u8>>)
    ensures
        texts_of(r@) == texts_of(list@),
{
    let mut out: Vec<Vec<u8>> = Vec::new();
    let mut i: usize = 0;
    while i < list.len()
        invariant
            i <= list.len(),
            out@.len() == i,
            forall|j: int| 0 <= j < i ==> out@[j]@ == list@[j]@,
        decreases list.len() - i,
    {
        out.push(to_vec(list[i].as_slice()));
        i += 1;
    }
    assert(texts_of(out@) =~= texts_of(list@));
    out
}

/// A copy of a list of methods.
pub fn copy_methods(list: &Vec<HttpMethod>) -> (r: Vec<HttpMethod>)
    ensures
        r@ == list@,
{
    let mut out: Vec<HttpMethod> = Vec::new();
    let mut i: usize = 0;
    while i < list.len()
        invariant
            i <= list.len(),
            out@ == list@.take(i as int),
        decreases list.len() - i,
    {
        out.push(list[i]);
        i += 1;
        assert(out@ =~= list@.take(i as int));
    }
    assert(list@.take(list.len() as int) =~= list@);
    out
}

/// Whether a list of byte strings holds `p`.
pub fn holds_text(list: &Vec<Vec<u8>>, p: &[u8]) -> (r: bool)
    ensures
        r == texts_of(list@).contains(p@),
{
    let mut i: usize = 0;
    while i < list.len()
        invariant
            i <= list.len(),
            forall|j: int| 0 <= j < i ==> texts_of(list@)[j] != p@,
        decreases list.len() - i,
    {
        if bytes_eq(list[i].as_slice(), p) {
            assert(texts_of(list@)[i as int] == p@);
            return true;
        }
        i += 1;
    }
    false
}

/// Whether a list of methods holds `method`.
pub fn holds_method(list: &Vec<HttpMethod>, method: HttpMethod) -> (r: bool)
    ensures
        r == list@.contains(method),
{
    let mut i: usize = 0;
    while i < list.len()
        invariant
            i <= list.len(),
            forall|j: int| 0 <= j < i ==> list@[j] != method,
        decreases list.len() - i,
    {
        if list[i] == method {
            return true;
        }
        i += 1;
    }
    false
}

impl EndpointType {
    /// A copy of this value.
    pub fn duplicate(&self) -> (r: EndpointType)
        ensures
            r@ == self@,
    {
        match self {
            EndpointType::StaticAsset(e) => EndpointType::StaticAsset(
                StaticEndpoint { asset_path: to_vec(e.asset_path.as_slice()) },
            ),
            EndpointType::Assets(e) => EndpointType::Assets(
                AssetEndpoint { asset_base: to_vec(e.asset_base.as_slice()) },
            ),
            EndpointType::Resource(e) => EndpointType::Resource(
                ResourceEndpoint { resource_handler_id: to_vec(e.resource_handler_id.as_slice()) },
            ),
        }
    }
}

impl Endpoint {
    /// An endpoint that serves the file `asset_base_path` under `path` and
    /// under each of `aliases`, for GET.
    pub fn asset(path: Vec<u8>, asset_base_path: Vec<u8>, aliases: Vec<Vec<u8>>) -> (r: Endpoint)
        ensures
            r@ == (EndpointModel {
                path: path@,
                kind: KindModel::StaticAsset(asset_base_path@),
                aliases: texts_of(aliases@),
                methods: seq![HttpMethod::Get],
            }),
    {
        let mut methods: Vec<HttpMethod> = Vec::new();
        methods.push(HttpMethod::Get);
        assert(methods@ =~= seq![HttpMethod::Get]);
        Endpoint {
            endpoint_type: EndpointType::StaticAsset(StaticEndpoint { asset_path: asset_base_path }),
            path,
            aliases,
            methods,
        }
    }

    /// A copy of this endpoint.
    pub fn duplicate(&self) -> (r: Endpoint)
        ensures
            r@ == self@,
    {
        Endpoint {
            path: to_vec(self.path.as_slice()),
            endpoint_type: self.endpoint_type.duplicate(),
            aliases: copy_texts(&self.aliases),
            methods: copy_methods(&self.methods),
        }
    }

    /// Whether the endpoint is found under `p`.
    pub fn owns(&self, p: &[u8]) -> (r: bool)
        ensures
            r == owns_path(self@, p@),
    {
        bytes_eq(self.path.as_slice(), p) || holds_text(&self.aliases, p)
    }

    /// Whether the two endpoints are found under a common path.
    pub fn shares_path_with(&self, other: &Endpoint) -> (r: bool)
        ensures
            r == shares_path(self@, other@),
    {
        if self.owns(other.path.as_slice()) {
            assert(owns_path(other@, other.path@));
            return true;
        }
        let mut k: usize = 0;
        while k < other.aliases.len()
            invariant
                k <= other.aliases.len(),
                !owns_path(self@, other.path@),
                forall|j: int| 0 <= j < k ==> !owns_path(self@, texts_of(other.aliases@)[j]),
            decreases other.aliases.len() - k,
        {
            if self.owns(other.aliases[k].as_slice()) {
                assert(texts_of(other.aliases@)[k as int] == other.aliases@[k as int]@);
                assert(owns_path(other@, other.aliases@[k as int]@));
                return true;
            }
            k += 1;
        }
        assert forall|p: Seq<u8>| owns_path(other@, p) implies !owns_path(self@, p) by {
            if other@.path != p {
                let j = choose|j: int| 0 <= j < other@.aliases.len() && other@.aliases[j] == p;
                assert(!owns_path(self@, texts_of(other.aliases@)[j]));
            }
        }
        false
    }

    /// Whether the two endpoints cannot stand in one registry.
    pub fn clashes_with(&self, other: &Endpoint) -> (r: bool)
        ensures
            r == clashes(self@, other@),
    {
        let mount = match (&self.endpoint_type, &other.endpoint_type) {
            (EndpointType::Assets(_), _) => true,
            (_, EndpointType::Assets(_)) => true,
            _ => false,
        };
        if mount {
            bytes_eq(self.path.as_slice(), other.path.as_slice())
        } else {
            self.shares_path_with(other)
        }
    }

    /// All the paths under which the endpoint is found, each once: the
    /// aliases in their order, then the path.
    pub fn get_all_paths(&self) -> (r: Vec<&[u8]>)
        ensures
            views_of(r@).to_set() == all_paths(self@),
            views_of(r@).no_duplicates(),
    {
        let mut out: Vec<&[u8]> = Vec::new();
        let ghost aliases = texts_of(self.aliases@);
        let mut k: usize = 0;
        assert(views_of(out@).to_set() =~= aliases.take(0).to_set());
        while k < self.aliases.len()
            invariant
                k <= self.aliases.len(),
                aliases == texts_of(self.aliases@),
                views_of(out@).no_duplicates(),
                views_of(out@).to_set() == aliases.take(k as int).to_set(),
            decreases self.aliases.len() - k,
        {
            let alias = self.aliases[k].as_slice();
            let ghost before = views_of(out@);
            proof {
                assert(aliases.take(k + 1) =~= aliases.take(k as int).push(alias@));
                aliases.take(k as int).lemma_push_to_set_commute(alias@);
            }
            if !holds_view(&out, alias) {
                out.push(alias);
                proof {
                    assert(views_of(out@) =~= before.push(alias@));
                    before.lemma_push_to_set_commute(alias@);
                    lemma_push_fresh(before, alias@);
                }
            } else {
                proof {
                    assert(before.to_set().contains(alias@));
                    assert(before.to_set().insert(alias@) =~= before.to_set());
                }
            }
            k += 1;
        }
        assert(aliases.take(self.aliases.len() as int) =~= aliases);
        let ghost before = views_of(out@);
        if !holds_view(&out, self.path.as_slice()) {
            out.push(self.path.as_slice());
            proof {
                assert(views_of(out@) =~= before.push(self.path@));
                before.lemma_push_to_set_commute(self.path@);
                lemma_push_fresh(before, self.path@);
            }
        } else {
            proof {
                assert(before.to_set().contains(self.path@));
            }
        }
        assert(views_of(out@).to_set() =~= all_paths(self@)) by {
            assert forall|p: Seq<u8>| all_paths(self@).contains(p) <==> (aliases.to_set().contains(p)
                || p == self.path@) by {}
        }
        out
    }
}

/// A sequence without duplicates stays so when a new element is appended.
pub proof fn lemma_push_fresh(s: Seq<Seq<u8>>, x: Seq<u8>)
    requires
        s.no_duplicates(),
        !s.contains(x),
    ensures
        s.push(x).no_duplicates(),
{
    let t = s.push(x);
    assert forall|i: int, j: int| 0 <= i < t.len() && 0 <= j < t.len() && i != j implies t[i]
        != t[j] by {
        if i < s.len() && j < s.len() {
        } else if i < s.len() {
            assert(s[i] != x);
        } else {
            assert(s[j] != x);
        }
    }
}

/// Whether a list of byte slices holds `p`.
pub fn holds_view(list: &Vec<&[u8]>, p: &[u8]) -> (r: bool)
    ensures
        r == views_of(list@).contains(p@),
{
    let mut i: usize = 0;
    while i < list.len()
        invariant
            i <= list.len(),
            forall|j: int| 0 <= j < i ==> views_of(list@)[j] != p@,
        decreases list.len() - i,
    {
        if bytes_eq(list[i], p) {
            assert(views_of(list@)[i as int] == p@);
            return true;
        }
        i += 1;
    }
    false
}

/// One row of the handler table: a handler under its id.
pub struct HandlerEntry<F: Fn(&Vec<RequestParameter>) -> Vec<u8>> {
    id: Vec<u8>,
    handler: Arc<ResourceHandler<F>>,
}

/// The ids and handlers of a handler table, as pairs.
pub closed spec fn handler_pairs<F: Fn(&Vec<RequestParameter>) -> Vec<u8>>(
    entries: Seq<HandlerEntry<F>>,
) -> Seq<(Seq<u8>, ResourceHandler<F>)> {
    entries.map_values(|e: HandlerEntry<F>| (e.id@, *e.handler))
}

/// Every endpoint that names a handler finds it in the table.
pub open spec fn handlers_present<F: Fn(&Vec<RequestParameter>) -> Vec<u8>>(
    endpoints: Seq<EndpointModel>,
    handlers: Map<Seq<u8>, ResourceHandler<F>>,
) -> bool {
    forall|i: int|
        0 <= i < endpoints.len() ==> match (#[trigger] endpoints[i]).kind {
            KindModel::Resource(id) => handlers.dom().contains(id),
            _ => true,
        }
}

/// What holds of every registry and every provider: no two endpoints
/// clash, the ids of the handler table are distinct, and every endpoint
/// that names a handler finds it there.
pub closed spec fn well_formed<F: Fn(&Vec<RequestParameter>) -> Vec<u8>>(
    endpoints: Seq<Endpoint>,
    table: Seq<HandlerEntry<F>>,
) -> bool {
    &&& disjoint(endpoint_models(endpoints))
    &&& keys_unique(handler_pairs(table))
    &&& handlers_present(endpoint_models(endpoints), pairs_map(handler_pairs(table)))
}

/// The directory that serves as mount `mapping` for the files under
/// `location`.
pub open spec fn assets_endpoint_of(
    current_dir: Seq<u8>,
    location: Seq<u8>,
    mapping: Seq<u8>,
) -> EndpointModel {
    EndpointModel {
        path: rooted(mapping),
        kind: KindModel::Assets(absolute_of(current_dir, location)),
        aliases: Seq::empty(),
        methods: seq![HttpMethod::Get],
    }
}

/// The endpoint that serves the single file `asset_path` under `mapping`.
pub open spec fn asset_endpoint_of(mapping: Seq<u8>, asset_path: Seq<u8>) -> EndpointModel {
    EndpointModel {
        path: rooted(mapping),
        kind: KindModel::StaticAsset(asset_path),
        aliases: Seq::empty(),
        methods: seq![HttpMethod::Get],
    }
}

/// The endpoint that hands requests for `mapping` to the handler `handler_id`.
pub open spec fn resource_endpoint_of(mapping: Seq<u8>, handler_id: Seq<u8>) -> EndpointModel {
    EndpointModel {
        path: rooted(mapping),
        kind: KindModel::Resource(handler_id),
        aliases: Seq::empty(),
        methods: seq![HttpMethod::Get],
    }
}

/// The endpoint that serves the file `entry` of a directory mounted at
/// `mapping`: the file's path moved from its directory to the mount. A file
/// named `index.html` is found under the mount's directory path as well.
pub open spec fn static_endpoint_of(entry: Seq<u8>, mapping: Seq<u8>) -> EndpointModel {
    let public = remap_spec(entry, parent_of(entry), mapping);
    EndpointModel {
        path: public,
        kind: KindModel::StaticAsset(entry),
        aliases: if file_name_of(entry) == bytes_of("index.html") {
            seq![parent_of(public)]
        } else {
            Seq::empty()
        },
        methods: seq![HttpMethod::Get],
    }
}

/// The endpoints after one file of a mounted directory was taken up: its
/// endpoint is registered, unless it clashes with a registered one.
pub open spec fn with_static_entry(
    endpoints: Seq<EndpointModel>,
    entry: Seq<u8>,
    mapping: Seq<u8>,
) -> Seq<EndpointModel> {
    registered(endpoints, static_endpoint_of(entry, mapping))
}

/// The endpoints after the files of a mounted directory were taken up, one
/// after the other.
pub open spec fn with_static_entries(
    endpoints: Seq<EndpointModel>,
    entries: Seq<Seq<u8>>,
    mapping: Seq<u8>,
) -> Seq<EndpointModel>
    decreases entries.len(),
{
    if entries.len() == 0 {
        endpoints
    } else {
        with_static_entry(
            with_static_entries(endpoints, entries.drop_last(), mapping),
            entries.last(),
            mapping,
        )
    }
}

/// Shares a reference-counted value: `Arc::clone`, which hands out another
/// pointer to the same value and leaves the value as it is.
#[verifier::external_body]
fn share<T>(value: &Arc<T>) -> (r: Arc<T>)
    ensures
        r == *value,
{
    Arc::clone(value)
}

/// A mapping with a separator in front.
pub fn rooted_path(mapping: Vec<u8>) -> (r: Vec<u8>)
    ensures
        r@ == rooted(mapping@),
{
    if starts_with(mapping.as_slice(), lit("/")) {
        mapping
    } else {
        let mut out = to_vec(lit("/"));
        append(&mut out, mapping.as_slice());
        out
    }
}

/// A list that holds the method GET alone.
pub fn get_only() -> (r: Vec<HttpMethod>)
    ensures
        r@ == seq![HttpMethod::Get],
{
    let mut methods: Vec<HttpMethod> = Vec::new();
    methods.push(HttpMethod::Get);
    assert(methods@ =~= seq![HttpMethod::Get]);
    methods
}

/// Whether the endpoint clashes with one of the existing ones.
pub fn conflicts_with(existing: &Vec<Endpoint>, endpoint: &Endpoint) -> (r: bool)
    ensures
        r == conflicts(endpoint_models(existing@), endpoint@),
{
    let ghost models = endpoint_models(existing@);
    let mut i: usize = 0;
    while i < existing.len()
        invariant
            i <= existing.len(),
            models == endpoint_models(existing@),
            forall|j: int| 0 <= j < i ==> !clashes(#[trigger] models[j], endpoint@),
        decreases existing.len() - i,
    {
        if existing[i].clashes_with(endpoint) {
            assert(clashes(models[i as int], endpoint@));
            return true;
        }
        i += 1;
    }
    false
}

/// Appends the endpoint unless it conflicts with an existing one.
pub fn register_into(existing: &mut Vec<Endpoint>, endpoint: Endpoint)
    ensures
        endpoint_models(final(existing)@) == registered(endpoint_models(old(existing)@), endpoint@),
{
    if conflicts_with(existing, &endpoint) {
        return;
    }
    let ghost before = endpoint_models(existing@);
    let ghost model = endpoint@;
    existing.push(endpoint);
    assert(endpoint_models(existing@) =~= before.push(model));
}

/// The endpoint for one file of a directory mounted at `mapping`.
pub fn static_endpoint(entry: Vec<u8>, mapping: &[u8]) -> (r: Endpoint)
    ensures
        r@ == static_endpoint_of(entry@, mapping@),
{
    let directory = parent(entry.as_slice());
    let public = remap(entry.as_slice(), directory.as_slice(), mapping);
    let mut aliases: Vec<Vec<u8>> = Vec::new();
    if bytes_eq(file_name(entry.as_slice()), lit("index.html")) {
        aliases.push(parent(public.as_slice()));
        assert(texts_of(aliases@) =~= seq![parent_of(public@)]);
    } else {
        assert(texts_of(aliases@) =~= Seq::<Seq<u8>>::empty());
    }
    Endpoint::asset(public, entry, aliases)
}

/// Registration leaves the endpoints' handlers where they are found.
pub proof fn lemma_registered_present<F: Fn(&Vec<RequestParameter>) -> Vec<u8>>(
    existing: Seq<EndpointModel>,
    e: EndpointModel,
    handlers: Map<Seq<u8>, ResourceHandler<F>>,
)
    requires
        handlers_present(existing, handlers),
        match e.kind {
            KindModel::Resource(id) => handlers.dom().contains(id),
            _ => true,
        },
    ensures
        handlers_present(registered(existing, e), handlers),
{
    if !conflicts(existing, e) {
        let after = existing.push(e);
        assert forall|i: int| 0 <= i < after.len() implies match (#[trigger] after[i]).kind {
            KindModel::Resource(id) => handlers.dom().contains(id),
            _ => true,
        } by {
            if i < existing.len() {
                assert(after[i] == existing[i]);
            }
        }
    }
}

/// The row of the handler table that carries `id`, if there is one.
fn find_handler<F: Fn(&Vec<RequestParameter>) -> Vec<u8>>(
    table: &Vec<HandlerEntry<F>>,
    id: &[u8],
) -> (r: Option<usize>)
    ensures
        match r {
            Some(i) => i < table.len() && handler_pairs(table@)[i as int].0 == id@,
            None => forall|j: int|
                0 <= j < table.len() ==> (#[trigger] handler_pairs(table@)[j]).0 != id@,
        },
{
    let ghost pairs = handler_pairs(table@);
    let mut i: usize = 0;
    while i < table.len()
        invariant
            i <= table.len(),
            pairs == handler_pairs(table@),
            forall|j: int| 0 <= j < i ==> (#[trigger] pairs[j]).0 != id@,
        decreases table.len() - i,
    {
        if bytes_eq(table[i].id.as_slice(), id) {
            return Some(i);
        }
        i += 1;
    }
    None
}

/// The registry: the endpoints in the order of their registration, the
/// handler table, and the directory against which relative locations are
/// read.
pub struct EndpointHandler<F: Fn(&Vec<RequestParameter>) -> Vec<u8>> {
    current_dir: Vec<u8>,
    endpoints: Vec<Endpoint>,
    resource_handler: Vec<HandlerEntry<F>>,
}

/// A frozen copy of a registry, against which requests are resolved.
pub struct EndpointProvider<F: Fn(&Vec<RequestParameter>) -> Vec<u8>> {
    endpoints: Vec<Endpoint>,
    resource_handler: Vec<HandlerEntry<F>>,
}

impl<F: Fn(&Vec<RequestParameter>) -> Vec<u8>> EndpointHandler<F> {
    #[verifier::type_invariant]
    closed spec fn inv(self) -> bool {
        well_formed(self.endpoints@, self.resource_handler@)
    }

    /// The endpoints, in the order of their registration.
    pub closed spec fn endpoints(&self) -> Seq<EndpointModel> {
        endpoint_models(self.endpoints@)
    }

    /// The handler table: each id with its handler.
    pub closed spec fn handlers(&self) -> Map<Seq<u8>, ResourceHandler<F>> {
        pairs_map(handler_pairs(self.resource_handler@))
    }

    /// The directory against which relative locations are read.
    pub closed spec fn current_dir(&self) -> Seq<u8> {
        self.current_dir@
    }

    /// An empty registry that reads relative locations against
    /// `current_dir`.
    pub fn create(current_dir: Vec<u8>) -> (r: EndpointHandler<F>)
        ensures
            r.endpoints() == Seq::<EndpointModel>::empty(),
            r.handlers() == Map::<Seq<u8>, ResourceHandler<F>>::empty(),
            r.current_dir() == current_dir@,
    {
        let endpoints: Vec<Endpoint> = Vec::new();
        let resource_handler: Vec<HandlerEntry<F>> = Vec::new();
        proof {
            lemma_no_pairs(handler_pairs(resource_handler@));
            assert(endpoint_models(endpoints@) =~= Seq::<EndpointModel>::empty());
        }
        EndpointHandler { current_dir, endpoints, resource_handler }
    }

    /// A provider with a copy of the endpoints and with the same handlers.
    pub fn to_provider(&self) -> (r: EndpointProvider<F>)
        ensures
            r.endpoints() == self.endpoints(),
            r.handlers() == self.handlers(),
            disjoint(r.endpoints()),
            handlers_present(r.endpoints(), r.handlers()),
    {
        proof {
            use_type_invariant(self);
        }
        let mut endpoints: Vec<Endpoint> = Vec::new();
        let mut i: usize = 0;
        while i < self.endpoints.len()
            invariant
                i <= self.endpoints.len(),
                endpoints@.len() == i,
                forall|j: int| 0 <= j < i ==> endpoints@[j]@ == self.endpoints@[j]@,
            decreases self.endpoints.len() - i,
        {
            endpoints.push(self.endpoints[i].duplicate());
            i += 1;
        }
        assert(endpoint_models(endpoints@) =~= endpoint_models(self.endpoints@));
        let mut resource_handler: Vec<HandlerEntry<F>> = Vec::new();
        let mut k: usize = 0;
        while k < self.resource_handler.len()
            invariant
                k <= self.resource_handler.len(),
                resource_handler@.len() == k,
                forall|j: int|
                    0 <= j < k ==> resource_handler@[j].id@ == self.resource_handler@[j].id@
                        && *resource_handler@[j].handler == *self.resource_handler@[j].handler,
            decreases self.resource_handler.len() - k,
        {
            let entry = &self.resource_handler[k];
            resource_handler.push(
                HandlerEntry { id: to_vec(entry.id.as_slice()), handler: share(&entry.handler) },
            );
            k += 1;
        }
        assert(handler_pairs(resource_handler@) =~= handler_pairs(self.resource_handler@));
        EndpointProvider { endpoints, resource_handler }
    }

    /// Registers the single file `absolute_file_path` under the path
    /// `mapping`. An endpoint whose path is taken is skipped.
    pub fn register_asset(&mut self, mapping: Vec<u8>, absolute_file_path: Vec<u8>)
        ensures
            final(self).endpoints() == registered(
                old(self).endpoints(),
                asset_endpoint_of(mapping@, absolute_file_path@),
            ),
            final(self).handlers() == old(self).handlers(),
            final(self).current_dir() == old(self).current_dir(),
            disjoint(final(self).endpoints()),
    {
        let aliases: Vec<Vec<u8>> = Vec::new();
        assert(texts_of(aliases@) =~= Seq::<Seq<u8>>::empty());
        let endpoint = Endpoint::asset(rooted_path(mapping), absolute_file_path, aliases);
        self.register_endpoint(endpoint);
    }

    /// Mounts the directory `location` under the path `mapping`. A mount
    /// whose path is taken is skipped.
    pub fn register_assets(&mut self, location: Vec<u8>, mapping: Vec<u8>)
        ensures
            final(self).endpoints() == registered(
                old(self).endpoints(),
                assets_endpoint_of(old(self).current_dir(), location@, mapping@),
            ),
            final(self).handlers() == old(self).handlers(),
            final(self).current_dir() == old(self).current_dir(),
            disjoint(final(self).endpoints()),
    {
        let absolute_path = map_to_absolute(self.current_dir.as_slice(), location.as_slice());
        let mapping_corrected = rooted_path(mapping);
        let aliases: Vec<Vec<u8>> = Vec::new();
        assert(texts_of(aliases@) =~= Seq::<Seq<u8>>::empty());
        let endpoint = Endpoint {
            path: mapping_corrected,
            aliases,
            methods: get_only(),
            endpoint_type: EndpointType::Assets(AssetEndpoint { asset_base: absolute_path }),
        };
        self.register_endpoint(endpoint);
    }

    /// Takes up the files of a mounted directory: `entries` are the paths
    /// of the files that the directory holds, `mapping` is the path under
    /// which they are served.
    pub fn register_static(&mut self, entries: Vec<Vec<u8>>, mapping: Vec<u8>)
        ensures
            final(self).endpoints() == with_static_entries(
                old(self).endpoints(),
                texts_of(entries@),
                mapping@,
            ),
            final(self).handlers() == old(self).handlers(),
            final(self).current_dir() == old(self).current_dir(),
            disjoint(final(self).endpoints()),
    {
        let ghost all = texts_of(entries@);
        let ghost start = self.endpoints();
        let mut k: usize = 0;
        assert(all.take(0) =~= Seq::<Seq<u8>>::empty());
        while k < entries.len()
            invariant
                k <= entries.len(),
                all == texts_of(entries@),
                start == old(self).endpoints(),
                self.endpoints() == with_static_entries(start, all.take(k as int), mapping@),
                self.handlers() == old(self).handlers(),
                self.current_dir() == old(self).current_dir(),
            decreases entries.len() - k,
        {
            let entry = to_vec(entries[k].as_slice());
            proof {
                assert(all.take(k + 1).drop_last() =~= all.take(k as int));
                assert(all.take(k + 1).last() == entry@);
            }
            let endpoint = static_endpoint(entry, mapping.as_slice());
            self.register_endpoint(endpoint);
            k += 1;
        }
        proof {
            assert(all.take(entries.len() as int) =~= all);
            use_type_invariant(&*self);
        }
    }

    /// Registers an endpoint at `mapping` that hands requests to `handler`,
    /// and stores the handler under `handler_id`, replacing what was stored
    /// there. Where the endpoint clashes with a registered one the whole
    /// registration is skipped: neither the endpoints nor the handler table
    /// change.
    pub fn register_resource(
        &mut self,
        mapping: Vec<u8>,
        handler_id: Vec<u8>,
        handler: ResourceHandler<F>,
    )
        ensures
            final(self).endpoints() == registered(
                old(self).endpoints(),
                resource_endpoint_of(mapping@, handler_id@),
            ),
            final(self).handlers() == if conflicts(
                old(self).endpoints(),
                resource_endpoint_of(mapping@, handler_id@),
            ) {
                old(self).handlers()
            } else {
                old(self).handlers().insert(handler_id@, handler)
            },
            final(self).current_dir() == old(self).current_dir(),
            disjoint(final(self).endpoints()),
    {
        let mapping_corrected = rooted_path(mapping);
        let aliases: Vec<Vec<u8>> = Vec::new();
        assert(texts_of(aliases@) =~= Seq::<Seq<u8>>::empty());
        let endpoint = Endpoint {
            endpoint_type: EndpointType::Resource(
                ResourceEndpoint { resource_handler_id: to_vec(handler_id.as_slice()) },
            ),
            path: mapping_corrected,
            aliases,
            methods: get_only(),
        };
        if self.conflicts_existing(&endpoint) {
            proof {
                use_type_invariant(&*self);
            }
            return;
        }
        self.insert_handler(handler_id, handler);
        self.register_endpoint(endpoint);
    }

    /// Stores `handler` under `id`, replacing what was stored there.
    fn insert_handler(&mut self, id: Vec<u8>, handler: ResourceHandler<F>)
        ensures
            final(self).endpoints() == old(self).endpoints(),
            final(self).handlers() == old(self).handlers().insert(id@, handler),
            final(self).current_dir() == old(self).current_dir(),
    {
        proof {
            use_type_invariant(&*self);
        }
        let mut taken = EndpointHandler::create(Vec::new());
        core::mem::swap(self, &mut taken);
        let EndpointHandler { current_dir, endpoints, resource_handler } = taken;
        let mut table = resource_handler;
        let ghost before = handler_pairs(table@);
        let ghost models = endpoint_models(endpoints@);
        let ghost key = id@;
        let shared = Arc::new(handler);
        match find_handler(&table, id.as_slice()) {
            Some(i) => {
                table.set(i, HandlerEntry { id, handler: shared });
                proof {
                    lemma_replace_pair(before, handler_pairs(table@), i as int);
                }
            },
            None => {
                table.push(HandlerEntry { id, handler: shared });
                proof {
                    assert(handler_pairs(table@).drop_last() =~= before);
                    lemma_push_pair(before, handler_pairs(table@));
                }
            },
        }
        proof {
            let after = pairs_map(handler_pairs(table@));
            assert(after == pairs_map(before).insert(key, handler));
            assert forall|j: int| 0 <= j < models.len() implies match (#[trigger] models[j]).kind {
                KindModel::Resource(name) => after.dom().contains(name),
                _ => true,
            } by {}
        }
        *self = EndpointHandler { current_dir, endpoints, resource_handler: table };
    }

    /// Appends the endpoint unless it conflicts with an existing one.
    fn register_endpoint(&mut self, endpoint: Endpoint)
        requires
            match endpoint@.kind {
                KindModel::Resource(id) => old(self).handlers().dom().contains(id),
                _ => true,
            },
        ensures
            final(self).endpoints() == registered(old(self).endpoints(), endpoint@),
            final(self).handlers() == old(self).handlers(),
            final(self).current_dir() == old(self).current_dir(),
            disjoint(final(self).endpoints()),
    {
        proof {
            use_type_invariant(&*self);
        }
        let mut taken = EndpointHandler::create(Vec::new());
        core::mem::swap(self, &mut taken);
        let EndpointHandler { current_dir, endpoints, resource_handler } = taken;
        let mut list = endpoints;
        proof {
            lemma_registered_disjoint(endpoint_models(list@), endpoint@);
            lemma_registered_present(
                endpoint_models(list@),
                endpoint@,
                pairs_map(handler_pairs(resource_handler@)),
            );
        }
        register_into(&mut list, endpoint);
        *self = EndpointHandler { current_dir, endpoints: list, resource_handler };
    }

    /// Whether the endpoint clashes with a registered one.
    pub fn conflicts_existing(&self, endpoint: &Endpoint) -> (r: bool)
        ensures
            r == conflicts(self.endpoints(), endpoint@),
    {
        conflicts_with(&self.endpoints, endpoint)
    }
}

impl<F: Fn(&Vec<RequestParameter>) -> Vec<u8>> EndpointProvider<F> {
    #[verifier::type_invariant]
    closed spec fn inv(self) -> bool {
        well_formed(self.endpoints@, self.resource_handler@)
    }

    /// The endpoints, in the order of their registration.
    pub closed spec fn endpoints(&self) -> Seq<EndpointModel> {
        endpoint_models(self.endpoints@)
    }

    /// The handler table: each id with its handler.
    pub closed spec fn handlers(&self) -> Map<Seq<u8>, ResourceHandler<F>> {
        pairs_map(handler_pairs(self.resource_handler@))
    }

    /// The endpoint that answers a request for `path` with `method`: the
    /// first one, in the order of registration, that matches.
    pub fn match_endpoint(&self, path: &[u8], method: HttpMethod) -> (r: Option<&Endpoint>)
        ensures
            match r {
                Some(e) => resolve(self.endpoints(), path@, method) == Some(e@),
                None => resolve(self.endpoints(), path@, method) is None,
            },
            disjoint(self.endpoints()),
            handlers_present(self.endpoints(), self.handlers()),
    {
        proof {
            use_type_invariant(self);
        }
        let ghost models = endpoint_models(self.endpoints@);
        let mut i: usize = 0;
        while i < self.endpoints.len()
            invariant
                i <= self.endpoints.len(),
                models == endpoint_models(self.endpoints@),
                well_formed(self.endpoints@, self.resource_handler@),
                forall|j: int| 0 <= j < i ==> !matches(#[trigger] models[j], path@, method),
            decreases self.endpoints.len() - i,
        {
            let e = &self.endpoints[i];
            assert(models[i as int] == e@);
            let hit = match &e.endpoint_type {
                EndpointType::Assets(_) => starts_with_path(path, e.path.as_slice()),
                _ => e.owns(path) && holds_method(&e.methods, method),
            };
            if hit {
                proof {
                    lemma_first_match_is(models, path@, method, i as int);
                }
                return Some(e);
            }
            i += 1;
        }
        proof {
            lemma_first_match_is(models, path@, method, models.len() as int);
        }
        None
    }

    /// Hands the request to the handler that the endpoint names and returns
    /// the body that the handler gives for the parameters it accepts.
    pub fn execute(&self, r: &ResourceEndpoint, request: &HttpRequest) -> (body: Vec<u8>)
        requires
            self.handlers().dom().contains(r.resource_handler_id@),
        ensures
            handler_returns(
                self.handlers()[r.resource_handler_id@].function(),
                accepted(
                    self.handlers()[r.resource_handler_id@].schema(),
                    request@.general.params,
                ),
                body@,
            ),
    {
        proof {
            use_type_invariant(self);
        }
        let ghost pairs = handler_pairs(self.resource_handler@);
        match find_handler(&self.resource_handler, r.resource_handler_id.as_slice()) {
            Some(i) => {
                proof {
                    lemma_index_of_key(pairs, i as int);
                }
                self.resource_handler[i].handler.handle(request)
            },
            None => {
                proof {
                    lemma_absent_key(pairs, r.resource_handler_id@);
                }
                Vec::new()
            },
        }
    }
}

} // verus!
