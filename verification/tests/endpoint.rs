use web_server::endpoint::{
    conflicts_with, register_into, rooted_path, static_endpoint, AssetEndpoint, Endpoint,
    EndpointHandler, EndpointProvider, EndpointType, ResourceEndpoint,
};
use web_server::parser::parse;
use web_server::request_helper::{RequestParameter, RequestParameterValue};
use web_server::resource::{
    copy_parameter, is_declared, ResourceHandler, ResourceParameter, ResourceParameterLocation,
};
use web_server::types::HttpMethod;

type Handler = fn(&Vec<RequestParameter>) -> Vec<u8>;

fn fixed(_args: &Vec<RequestParameter>) -> Vec<u8> {
    b"test".to_vec()
}

fn echo(args: &Vec<RequestParameter>) -> Vec<u8> {
    let mut out = Vec::new();
    for a in args {
        match a {
            RequestParameter::Query(v) => {
                out.extend_from_slice(b"q:");
                out.extend_from_slice(&v.name);
                out.push(b'=');
                out.extend_from_slice(&v.value);
                out.push(b';');
            }
            RequestParameter::Path(v) => {
                out.extend_from_slice(b"p:");
                out.extend_from_slice(&v.name);
                out.push(b'=');
                out.extend_from_slice(&v.value);
                out.push(b';');
            }
        }
    }
    out
}

fn registry() -> EndpointHandler<Handler> {
    EndpointHandler::create(b"/srv".to_vec())
}

fn sqr_handler() -> ResourceHandler<Handler> {
    ResourceHandler::new(
        fixed as Handler,
        vec![ResourceParameter::p_i8(b"n".to_vec(), ResourceParameterLocation::Query)],
    )
}

fn kind(e: &Endpoint) -> &'static str {
    match &e.endpoint_type {
        EndpointType::StaticAsset(_) => "static",
        EndpointType::Assets(_) => "assets",
        EndpointType::Resource(_) => "resource",
    }
}

fn resolved<'a>(p: &'a EndpointProvider<Handler>, path: &[u8]) -> Option<&'a Endpoint> {
    p.match_endpoint(path, HttpMethod::Get)
}

#[test]
fn registration_conflict_first_wins() {
    let mut reg = registry();
    reg.register_resource(b"/math/sqr".to_vec(), b"sqr".to_vec(), sqr_handler());
    let late = Endpoint::asset(b"/math/sqr".to_vec(), b"/srv/files/sqr.html".to_vec(), vec![]);
    assert!(reg.conflicts_existing(&late));
    reg.register_asset(b"/math/sqr".to_vec(), b"/srv/files/sqr.html".to_vec());
    reg.register_static(vec![b"/srv/files/sqr".to_vec()], b"math".to_vec());
    reg.register_assets(b"files".to_vec(), b"math/sqr".to_vec());
    let provider = reg.to_provider();
    let e = resolved(&provider, b"/math/sqr").unwrap();
    assert_eq!(kind(e), "resource");
    assert_eq!(e.path, b"/math/sqr".to_vec());
    assert!(resolved(&provider, b"/math/sqr/x").is_none());
}

#[test]
fn register_asset_serves_one_file() {
    let mut reg = registry();
    reg.register_asset(b"favicon.ico".to_vec(), b"/srv/files/favicon.ico".to_vec());
    let provider = reg.to_provider();
    let e = resolved(&provider, b"/favicon.ico").unwrap();
    assert_eq!(kind(e), "static");
    match &e.endpoint_type {
        EndpointType::StaticAsset(a) => assert_eq!(a.asset_path, b"/srv/files/favicon.ico".to_vec()),
        _ => panic!("a static asset was expected"),
    }
    assert!(resolved(&provider, b"/favicon.ico/x").is_none());
    assert!(provider.match_endpoint(b"/favicon.ico", HttpMethod::Head).is_none());
}

#[test]
fn register_into_skips_a_conflicting_endpoint() {
    let mut list: Vec<Endpoint> = Vec::new();
    register_into(
        &mut list,
        Endpoint {
            path: b"/math/sqr".to_vec(),
            endpoint_type: EndpointType::Resource(ResourceEndpoint {
                resource_handler_id: b"sqr".to_vec(),
            }),
            aliases: vec![],
            methods: vec![HttpMethod::Get],
        },
    );
    register_into(
        &mut list,
        Endpoint::asset(b"/math/sqr".to_vec(), b"/srv/sqr.html".to_vec(), vec![]),
    );
    assert_eq!(list.len(), 1);
    assert_eq!(kind(&list[0]), "resource");
    register_into(
        &mut list,
        Endpoint::asset(b"/other".to_vec(), b"/srv/o.html".to_vec(), vec![b"/math/sqr".to_vec()]),
    );
    assert_eq!(list.len(), 1);
    register_into(
        &mut list,
        Endpoint::asset(b"/other".to_vec(), b"/srv/o.html".to_vec(), vec![b"/o".to_vec()]),
    );
    assert_eq!(list.len(), 2);
    register_into(&mut list, Endpoint::asset(b"/o".to_vec(), b"/srv/p.html".to_vec(), vec![]));
    assert_eq!(list.len(), 2);
    assert!(conflicts_with(
        &list,
        &Endpoint::asset(b"/new".to_vec(), b"/srv/n".to_vec(), vec![b"/other".to_vec()])
    ));
    assert!(!conflicts_with(&list, &Endpoint::asset(b"/new".to_vec(), b"/srv/n".to_vec(), vec![])));
}

#[test]
fn a_mount_clashes_only_with_an_identical_path() {
    let mut reg = registry();
    reg.register_static(vec![b"/srv/site/index.html".to_vec()], b"website".to_vec());
    reg.register_assets(b"files/website".to_vec(), b"website".to_vec());
    reg.register_assets(b"files/other".to_vec(), b"website".to_vec());
    reg.register_assets(b"files/index".to_vec(), b"website/index.html".to_vec());
    reg.register_asset(b"website".to_vec(), b"/srv/late.html".to_vec());
    let provider = reg.to_provider();
    assert_eq!(kind(resolved(&provider, b"/website").unwrap()), "static");
    assert_eq!(kind(resolved(&provider, b"/website/index.html").unwrap()), "static");
    let e = resolved(&provider, b"/website/style.css").unwrap();
    assert_eq!(kind(e), "assets");
    match &e.endpoint_type {
        EndpointType::Assets(a) => assert_eq!(a.asset_base, b"/srv/files/website".to_vec()),
        _ => panic!("a mount was expected"),
    }
    let mount = Endpoint {
        path: b"/website".to_vec(),
        endpoint_type: EndpointType::Assets(AssetEndpoint { asset_base: b"/srv/m".to_vec() }),
        aliases: vec![],
        methods: vec![HttpMethod::Get],
    };
    let index = Endpoint::asset(
        b"/website/index.html".to_vec(),
        b"/srv/site/index.html".to_vec(),
        vec![b"/website".to_vec()],
    );
    let page = Endpoint::asset(b"/website".to_vec(), b"/srv/late.html".to_vec(), vec![]);
    assert!(!mount.clashes_with(&index));
    assert!(!index.clashes_with(&mount));
    assert!(index.shares_path_with(&mount));
    assert!(mount.clashes_with(&page));
    assert!(page.clashes_with(&mount));
    assert!(page.clashes_with(&index));
    assert!(mount.clashes_with(&mount));
}

#[test]
fn mount_matches_by_prefix_at_segment_boundary() {
    let mut reg = registry();
    reg.register_assets(b"files/storage".to_vec(), b"storage".to_vec());
    let provider = reg.to_provider();
    let e = resolved(&provider, b"/storage/x/y.png").unwrap();
    assert_eq!(kind(e), "assets");
    assert_eq!(e.path, b"/storage".to_vec());
    match &e.endpoint_type {
        EndpointType::Assets(a) => assert_eq!(a.asset_base, b"/srv/files/storage".to_vec()),
        _ => panic!("a mount was expected"),
    }
    assert!(resolved(&provider, b"/storage").is_some());
    assert!(resolved(&provider, b"/storage/").is_some());
    assert!(resolved(&provider, b"/storage2/x").is_none());
    assert!(resolved(&provider, b"/stor").is_none());
    assert!(resolved(&provider, b"/").is_none());
}

#[test]
fn mount_ignores_the_method() {
    let mut reg = registry();
    reg.register_assets(b"/var/data/".to_vec(), b"/data".to_vec());
    reg.register_resource(b"api".to_vec(), b"api".to_vec(), sqr_handler());
    let provider = reg.to_provider();
    assert!(provider.match_endpoint(b"/data/a.txt", HttpMethod::Post).is_some());
    assert!(provider.match_endpoint(b"/data/a.txt", HttpMethod::Delete).is_some());
    assert!(provider.match_endpoint(b"/api", HttpMethod::Get).is_some());
    assert!(provider.match_endpoint(b"/api", HttpMethod::Post).is_none());
    assert!(provider.match_endpoint(b"/api/x", HttpMethod::Get).is_none());
}

#[test]
fn index_html_is_found_under_the_directory_path_too() {
    let mut reg = registry();
    reg.register_static(
        vec![
            b"/srv/files/dummy-website/index.html".to_vec(),
            b"/srv/files/dummy-website/style.css".to_vec(),
        ],
        b"dir".to_vec(),
    );
    let provider = reg.to_provider();
    let by_name = resolved(&provider, b"/dir/index.html").unwrap();
    let by_alias = resolved(&provider, b"/dir").unwrap();
    assert_eq!(by_name.path, b"/dir/index.html".to_vec());
    assert_eq!(by_alias.path, b"/dir/index.html".to_vec());
    assert_eq!(by_alias.aliases, vec![b"/dir".to_vec()]);
    match (&by_name.endpoint_type, &by_alias.endpoint_type) {
        (EndpointType::StaticAsset(a), EndpointType::StaticAsset(b)) => {
            assert_eq!(a.asset_path, b"/srv/files/dummy-website/index.html".to_vec());
            assert_eq!(a.asset_path, b.asset_path);
        }
        _ => panic!("static assets were expected"),
    }
    let css = resolved(&provider, b"/dir/style.css").unwrap();
    assert!(css.aliases.is_empty());
    assert!(resolved(&provider, b"/dir/other.css").is_none());
    assert!(provider.match_endpoint(b"/dir", HttpMethod::Post).is_none());
}

#[test]
fn static_endpoint_remaps_the_entry() {
    let e = static_endpoint(b"/srv/site/a.txt".to_vec(), b"/pub/");
    assert_eq!(e.path, b"/pub/a.txt".to_vec());
    assert!(e.aliases.is_empty());
    assert_eq!(e.methods, vec![HttpMethod::Get]);
    let e = static_endpoint(b"/srv/site/index.html".to_vec(), b"");
    assert_eq!(e.path, b"/index.html".to_vec());
    assert_eq!(e.aliases, vec![b"/".to_vec()]);
}

#[test]
fn register_static_gives_each_entry_its_endpoint() {
    let mut reg = registry();
    reg.register_assets(b"files".to_vec(), b"/srv/site/a.txt".to_vec());
    reg.register_static(
        vec![b"/srv/site/a.txt".to_vec(), b"/srv/site/b.txt".to_vec()],
        b"pub".to_vec(),
    );
    let provider = reg.to_provider();
    for (path, file) in [
        (&b"/pub/a.txt"[..], &b"/srv/site/a.txt"[..]),
        (&b"/pub/b.txt"[..], &b"/srv/site/b.txt"[..]),
    ] {
        match &resolved(&provider, path).unwrap().endpoint_type {
            EndpointType::StaticAsset(a) => assert_eq!(a.asset_path, file.to_vec()),
            _ => panic!("a static asset was expected"),
        }
    }
}

#[test]
fn register_static_skips_an_entry_whose_public_path_is_taken() {
    let mut reg = registry();
    reg.register_asset(b"pub/a.txt".to_vec(), b"/srv/first.txt".to_vec());
    reg.register_static(
        vec![b"/srv/site/a.txt".to_vec(), b"/srv/site/b.txt".to_vec()],
        b"pub".to_vec(),
    );
    let provider = reg.to_provider();
    match &resolved(&provider, b"/pub/a.txt").unwrap().endpoint_type {
        EndpointType::StaticAsset(a) => assert_eq!(a.asset_path, b"/srv/first.txt".to_vec()),
        _ => panic!("a static asset was expected"),
    }
    assert!(resolved(&provider, b"/pub/b.txt").is_some());
}

#[test]
fn first_match_in_registration_order_wins() {
    let mut reg = registry();
    reg.register_static(vec![b"/srv/site/a.txt".to_vec()], b"storage".to_vec());
    reg.register_assets(b"files/storage".to_vec(), b"storage".to_vec());
    let provider = reg.to_provider();
    assert_eq!(kind(resolved(&provider, b"/storage/a.txt").unwrap()), "static");
    assert_eq!(kind(resolved(&provider, b"/storage/b.txt").unwrap()), "assets");
    let mut reg = registry();
    reg.register_assets(b"files/storage".to_vec(), b"storage".to_vec());
    reg.register_static(vec![b"/srv/site/a.txt".to_vec()], b"storage".to_vec());
    let provider = reg.to_provider();
    assert_eq!(kind(resolved(&provider, b"/storage/a.txt").unwrap()), "assets");
}

#[test]
fn rooted_path_adds_a_leading_separator() {
    assert_eq!(rooted_path(b"storage".to_vec()), b"/storage".to_vec());
    assert_eq!(rooted_path(b"/storage".to_vec()), b"/storage".to_vec());
    assert_eq!(rooted_path(b"".to_vec()), b"/".to_vec());
}

#[test]
fn get_all_paths_lists_each_path_once() {
    let e = Endpoint::asset(
        b"/a".to_vec(),
        b"/srv/a".to_vec(),
        vec![b"/b".to_vec(), b"/a".to_vec(), b"/b".to_vec(), b"/c".to_vec()],
    );
    let expected: Vec<&[u8]> = vec![b"/b", b"/a", b"/c"];
    assert_eq!(e.get_all_paths(), expected);
    assert!(e.owns(b"/c"));
    assert!(!e.owns(b"/d"));
    let other = Endpoint::asset(b"/x".to_vec(), b"/srv/x".to_vec(), vec![b"/c".to_vec()]);
    assert!(e.shares_path_with(&other));
    assert!(other.shares_path_with(&e));
    let apart = Endpoint::asset(b"/x".to_vec(), b"/srv/x".to_vec(), vec![]);
    assert!(!e.shares_path_with(&apart));
}

#[test]
fn duplicate_copies_an_endpoint() {
    let e = Endpoint {
        path: b"/m".to_vec(),
        endpoint_type: EndpointType::Assets(AssetEndpoint { asset_base: b"/srv/m".to_vec() }),
        aliases: vec![b"/n".to_vec()],
        methods: vec![HttpMethod::Get, HttpMethod::Head],
    };
    let d = e.duplicate();
    assert_eq!(d.path, e.path);
    assert_eq!(d.aliases, e.aliases);
    assert_eq!(d.methods, e.methods);
    assert_eq!(kind(&d), "assets");
}

#[test]
fn execute_calls_the_handler_with_declared_parameters_only() {
    let mut reg = registry();
    let handler = ResourceHandler::new(
        echo as Handler,
        vec![
            ResourceParameter::p_i8(b"n".to_vec(), ResourceParameterLocation::Query),
            ResourceParameter::p_string(b"name".to_vec(), ResourceParameterLocation::Query),
            ResourceParameter::p_string(b"id".to_vec(), ResourceParameterLocation::Path),
        ],
    );
    reg.register_resource(b"math/sqr".to_vec(), b"sqr".to_vec(), handler);
    let provider = reg.to_provider();
    let req = parse("GET /math/sqr?x=1&n=4&id=9&name=a&n=5 HTTP/1.1\r\n\r\n").unwrap();
    let e = resolved(&provider, b"/math/sqr").unwrap();
    match &e.endpoint_type {
        EndpointType::Resource(r) => {
            assert_eq!(provider.execute(r, &req), b"q:n=4;q:name=a;q:n=5;".to_vec());
        }
        _ => panic!("a resource was expected"),
    }
}

#[test]
fn register_resource_replaces_a_handler_of_the_same_id() {
    let mut reg = registry();
    reg.register_resource(b"a".to_vec(), b"h".to_vec(), ResourceHandler::new(echo as Handler, vec![]));
    reg.register_resource(b"b".to_vec(), b"h".to_vec(), sqr_handler());
    let provider = reg.to_provider();
    let req = parse("GET /a HTTP/1.1\r\n\r\n").unwrap();
    let r = ResourceEndpoint { resource_handler_id: b"h".to_vec() };
    assert_eq!(provider.execute(&r, &req), b"test".to_vec());
    assert!(resolved(&provider, b"/a").is_some());
    assert!(resolved(&provider, b"/b").is_some());
}

#[test]
fn a_conflicting_resource_keeps_the_first_handler() {
    let mut reg = registry();
    reg.register_resource(b"/math/sqr".to_vec(), b"sqr".to_vec(), sqr_handler());
    reg.register_resource(
        b"/math/sqr".to_vec(),
        b"sqr".to_vec(),
        ResourceHandler::new(echo as Handler, vec![]),
    );
    let provider = reg.to_provider();
    let req = parse("GET /math/sqr HTTP/1.1\r\n\r\n").unwrap();
    let e = resolved(&provider, b"/math/sqr").unwrap();
    match &e.endpoint_type {
        EndpointType::Resource(r) => {
            assert_eq!(r.resource_handler_id, b"sqr".to_vec());
            assert_eq!(provider.execute(r, &req), b"test".to_vec());
        }
        _ => panic!("a resource was expected"),
    }
}

#[test]
fn a_resource_skipped_behind_a_mount_leaves_the_handlers_alone() {
    let mut reg = registry();
    reg.register_resource(b"first".to_vec(), b"h".to_vec(), sqr_handler());
    reg.register_assets(b"files".to_vec(), b"taken".to_vec());
    reg.register_resource(
        b"taken".to_vec(),
        b"h".to_vec(),
        ResourceHandler::new(echo as Handler, vec![]),
    );
    let provider = reg.to_provider();
    assert_eq!(kind(resolved(&provider, b"/taken").unwrap()), "assets");
    let req = parse("GET /first HTTP/1.1\r\n\r\n").unwrap();
    let r = ResourceEndpoint { resource_handler_id: b"h".to_vec() };
    assert_eq!(provider.execute(&r, &req), b"test".to_vec());
}

#[test]
fn accepted_parameters_keep_request_order() {
    let handler = ResourceHandler::new(
        fixed as Handler,
        vec![ResourceParameter::p_i8(b"n".to_vec(), ResourceParameterLocation::Query)],
    );
    let req = parse("GET /m?a=1&n=2&b=3&n=4 HTTP/1.1\r\n\r\n").unwrap();
    let got = handler.accepted_parameters(&req);
    assert_eq!(got.len(), 2);
    match (&got[0], &got[1]) {
        (RequestParameter::Query(x), RequestParameter::Query(y)) => {
            assert_eq!(x.value, b"2".to_vec());
            assert_eq!(y.value, b"4".to_vec());
        }
        _ => panic!("query parameters were expected"),
    }
    assert_eq!(handler.handle(&req), b"test".to_vec());
}

#[test]
fn is_declared_compares_name_and_location() {
    let schema = vec![
        ResourceParameter::p_string(b"id".to_vec(), ResourceParameterLocation::Path),
        ResourceParameter::p_i8(b"n".to_vec(), ResourceParameterLocation::Query),
    ];
    let q = |name: &[u8]| {
        RequestParameter::Query(RequestParameterValue { name: name.to_vec(), value: b"1".to_vec() })
    };
    let p = |name: &[u8]| {
        RequestParameter::Path(RequestParameterValue { name: name.to_vec(), value: b"1".to_vec() })
    };
    assert!(is_declared(&schema, &q(b"n")));
    assert!(is_declared(&schema, &p(b"id")));
    assert!(!is_declared(&schema, &p(b"n")));
    assert!(!is_declared(&schema, &q(b"id")));
    assert!(!is_declared(&schema, &q(b"N")));
    assert!(!is_declared(&Vec::new(), &q(b"n")));
    match copy_parameter(&p(b"id")) {
        RequestParameter::Path(v) => assert_eq!(v.name, b"id".to_vec()),
        _ => panic!("a path parameter was expected"),
    }
}
