use web_server::parser::{
    match_method, match_version, parse, parse_general, parse_headers, tokenize, ParseError,
};
use web_server::request_helper::{
    clean_path, get_parameters_from_path, get_query_params, RequestParameter,
};
use web_server::types::{HeaderMap, HttpMethod, HttpVersion};

fn query(p: &RequestParameter) -> (String, String) {
    match p {
        RequestParameter::Query(v) => (
            String::from_utf8(v.name.clone()).unwrap(),
            String::from_utf8(v.value.clone()).unwrap(),
        ),
        RequestParameter::Path(_) => panic!("a query parameter was expected"),
    }
}

fn pair(a: &str, b: &str) -> (String, String) {
    (a.to_string(), b.to_string())
}

#[test]
fn parse_reads_method_path_and_version() {
    let req = parse("GET /index.html HTTP/1.1\r\nHost: localhost\r\n\r\n").unwrap();
    assert_eq!(req.general.method, HttpMethod::Get);
    assert_eq!(req.general.path, b"/index.html".to_vec());
    assert_eq!(req.general.version, HttpVersion::One);
    assert!(req.general.params.is_empty());
}

#[test]
fn parse_knows_all_six_methods() {
    let cases = [
        ("GET", HttpMethod::Get),
        ("HEAD", HttpMethod::Head),
        ("OPTIONS", HttpMethod::Options),
        ("POST", HttpMethod::Post),
        ("PUT", HttpMethod::Put),
        ("DELETE", HttpMethod::Delete),
    ];
    for (token, method) in cases {
        let raw = format!("{} /x HTTP/1.1\r\n\r\n", token);
        let req = parse(&raw).unwrap();
        assert_eq!(req.general.method, method);
        assert_eq!(method.to_text(), token.as_bytes());
    }
}

#[test]
fn parse_knows_all_three_versions() {
    let cases = [
        ("HTTP/1.1", HttpVersion::One),
        ("HTTP/2", HttpVersion::Two),
        ("HTTP/3", HttpVersion::Three),
    ];
    for (token, version) in cases {
        let raw = format!("GET /x {}\r\n\r\n", token);
        assert_eq!(parse(&raw).unwrap().general.version, version);
    }
}

#[test]
fn parse_matches_method_and_version_in_any_case() {
    let req = parse("gEt /x hTtP/2\r\n\r\n").unwrap();
    assert_eq!(req.general.method, HttpMethod::Get);
    assert_eq!(req.general.version, HttpVersion::Two);
    let req = parse("delete /x http/3\r\n\r\n").unwrap();
    assert_eq!(req.general.method, HttpMethod::Delete);
    assert_eq!(req.general.version, HttpVersion::Three);
}

#[test]
fn parse_defaults_to_http_1_1_for_two_tokens() {
    let req = parse("POST /submit\r\n\r\n").unwrap();
    assert_eq!(req.general.method, HttpMethod::Post);
    assert_eq!(req.general.path, b"/submit".to_vec());
    assert_eq!(req.general.version, HttpVersion::One);
}

#[test]
fn parse_query_parameters_in_order() {
    let req = parse("GET /a?x=1&y=2 HTTP/1.1\r\n\r\n").unwrap();
    assert_eq!(req.general.path, b"/a".to_vec());
    let params: Vec<(String, String)> = req.general.params.iter().map(query).collect();
    assert_eq!(params, vec![pair("x", "1"), pair("y", "2")]);
}

#[test]
fn parse_rejects_query_segment_without_equals() {
    assert_eq!(
        parse("GET /a?bad HTTP/1.1\r\n\r\n").err(),
        Some(ParseError::MalformedQueryParameter)
    );
    assert_eq!(
        parse("GET /a?x=1&bad HTTP/1.1\r\n\r\n").err(),
        Some(ParseError::MalformedQueryParameter)
    );
    assert_eq!(
        parse("GET /a? HTTP/1.1\r\n\r\n").err(),
        Some(ParseError::MalformedQueryParameter)
    );
}

#[test]
fn parse_reports_empty_request() {
    assert_eq!(parse("").err(), Some(ParseError::EmptyRequest));
    assert_eq!(parse("\r\n\r\n").err(), Some(ParseError::EmptyRequest));
    assert_eq!(parse("   \r\nHost: x\r\n\r\n").err(), Some(ParseError::EmptyRequest));
}

#[test]
fn parse_reports_malformed_general_line() {
    assert_eq!(parse("GET\r\n\r\n").err(), Some(ParseError::MalformedGeneralLine));
    assert_eq!(
        parse("GET / HTTP/1.1 extra\r\n\r\n").err(),
        Some(ParseError::MalformedGeneralLine)
    );
}

#[test]
fn parse_reports_unknown_method() {
    assert_eq!(parse("FETCH / HTTP/1.1\r\n\r\n").err(), Some(ParseError::UnknownMethod));
    assert_eq!(parse("FETCH /\r\n\r\n").err(), Some(ParseError::UnknownMethod));
}

#[test]
fn parse_reports_unknown_version() {
    assert_eq!(parse("GET / HTTP/9\r\n\r\n").err(), Some(ParseError::UnknownVersion));
}

#[test]
fn parse_judges_method_before_query_before_version() {
    assert_eq!(parse("FETCH /a?bad HTTP/9\r\n\r\n").err(), Some(ParseError::UnknownMethod));
    assert_eq!(
        parse("GET /a?bad HTTP/9\r\n\r\n").err(),
        Some(ParseError::MalformedQueryParameter)
    );
}

#[test]
fn parse_splits_query_value_at_first_equals_only() {
    let req = parse("GET /a?x=1=2&y= HTTP/1.1\r\n\r\n").unwrap();
    let params: Vec<(String, String)> = req.general.params.iter().map(query).collect();
    assert_eq!(params, vec![pair("x", "1=2"), pair("y", "")]);
}

#[test]
fn parse_takes_everything_after_first_question_mark_as_query() {
    let req = parse("GET /a?x=1?2 HTTP/1.1\r\n\r\n").unwrap();
    assert_eq!(req.general.path, b"/a".to_vec());
    let params: Vec<(String, String)> = req.general.params.iter().map(query).collect();
    assert_eq!(params, vec![pair("x", "1?2")]);
}

#[test]
fn parse_headers_are_cut_at_first_colon_trimmed_and_lowercased() {
    let req = parse(
        "GET / HTTP/1.1\r\nHost: localhost:8080\r\n  Accept-Encoding :  gzip, deflate \r\n\r\n",
    )
    .unwrap();
    assert_eq!(req.headers.len(), 2);
    assert_eq!(req.headers.get(b"host"), Some(&b"localhost:8080".to_vec()));
    assert_eq!(req.headers.get(b"accept-encoding"), Some(&b"gzip, deflate".to_vec()));
    assert_eq!(req.headers.get(b"Host"), None);
}

#[test]
fn parse_skips_header_lines_without_colon() {
    let req = parse("GET / HTTP/1.1\r\nnot a header\r\nA: b\r\n\r\n").unwrap();
    assert_eq!(req.headers.len(), 1);
    assert_eq!(req.headers.get(b"a"), Some(&b"b".to_vec()));
}

#[test]
fn parse_keeps_the_later_of_two_headers_with_one_name() {
    let req = parse("GET / HTTP/1.1\r\nX-Id: 1\r\nx-id: 2\r\n\r\n").unwrap();
    assert_eq!(req.headers.len(), 1);
    assert_eq!(req.headers.get(b"x-id"), Some(&b"2".to_vec()));
}

#[test]
fn parse_ignores_repeated_spaces_between_tokens() {
    let req = parse("GET   /x   HTTP/1.1\r\n\r\n").unwrap();
    assert_eq!(req.general.path, b"/x".to_vec());
    let req = parse(" GET\t /x \r\n\r\n").unwrap();
    assert_eq!(req.general.method, HttpMethod::Get);
    assert_eq!(req.general.path, b"/x".to_vec());
}

#[test]
fn parse_general_reads_one_line() {
    let g = parse_general(b"PUT /items?id=7 HTTP/3").unwrap();
    assert_eq!(g.method, HttpMethod::Put);
    assert_eq!(g.path, b"/items".to_vec());
    assert_eq!(g.version, HttpVersion::Three);
    assert_eq!(g.params.len(), 1);
    assert_eq!(query(&g.params[0]), pair("id", "7"));
    assert_eq!(parse_general(b"").err(), Some(ParseError::EmptyRequest));
}

#[test]
fn parse_headers_reads_a_list_of_lines() {
    let lines: Vec<&[u8]> = vec![b"A: 1", b"", b"B:2", b"a: 3"];
    let headers: HeaderMap = parse_headers(&lines);
    assert_eq!(headers.len(), 2);
    assert_eq!(headers.get(b"a"), Some(&b"3".to_vec()));
    assert_eq!(headers.get(b"b"), Some(&b"2".to_vec()));
    assert_eq!(headers.get(b"c"), None);
}

#[test]
fn match_method_and_version_report_their_errors() {
    assert_eq!(match_method(b"options"), Ok(HttpMethod::Options));
    assert_eq!(match_method(b"GETS"), Err(ParseError::UnknownMethod));
    assert_eq!(match_method(b""), Err(ParseError::UnknownMethod));
    assert_eq!(match_version(b"http/1.1"), Ok(HttpVersion::One));
    assert_eq!(match_version(b"HTTP/1.0"), Err(ParseError::UnknownVersion));
}

#[test]
fn tokenize_trims_and_drops_empty_pieces() {
    let tokens = tokenize(b"  a \t b  c ");
    let expected: Vec<&[u8]> = vec![b"a", b"b", b"c"];
    assert_eq!(tokens, expected);
    assert!(tokenize(b"").is_empty());
    assert!(tokenize(b" \t ").is_empty());
}

#[test]
fn clean_path_cuts_at_first_question_mark() {
    assert_eq!(clean_path(b"/a/b?x=1"), b"/a/b");
    assert_eq!(clean_path(b"/a/b"), b"/a/b");
    assert_eq!(clean_path(b"?x"), b"");
    assert_eq!(clean_path(b"/a?b?c"), b"/a");
}

#[test]
fn get_parameters_from_path_without_query_is_empty() {
    assert!(get_parameters_from_path(b"/a/b").unwrap().is_empty());
    assert!(get_query_params(b"").unwrap().is_empty());
}

#[test]
fn get_parameters_from_path_reads_each_segment() {
    let params = get_parameters_from_path(b"/p?a=1&b=&c=x%20y").unwrap();
    let got: Vec<(String, String)> = params.iter().map(query).collect();
    assert_eq!(got, vec![pair("a", "1"), pair("b", ""), pair("c", "x%20y")]);
    assert_eq!(
        get_parameters_from_path(b"/p?a=1&&b=2").err(),
        Some(ParseError::MalformedQueryParameter)
    );
}

#[test]
fn request_to_text_names_method_path_and_version() {
    let req = parse("GET /a?x=1 HTTP/2\r\n\r\n").unwrap();
    assert_eq!(
        req.to_text(),
        b"HttpRequest [method=\"GET\", path=\"/a\", version=\"Http/2\"]".to_vec()
    );
    assert_eq!(HttpVersion::One.to_text(), b"Http/1.1");
    assert_eq!(HttpVersion::Three.to_text(), b"Http/3");
}

#[test]
fn header_map_insert_replaces_and_get_finds() {
    let mut map = HeaderMap::new();
    assert_eq!(map.len(), 0);
    map.insert(b"a".to_vec(), b"1".to_vec());
    map.insert(b"b".to_vec(), b"2".to_vec());
    map.insert(b"a".to_vec(), b"3".to_vec());
    assert_eq!(map.len(), 2);
    assert_eq!(map.get(b"a"), Some(&b"3".to_vec()));
    assert_eq!(map.get(b"b"), Some(&b"2".to_vec()));
    assert_eq!(map.get(b""), None);
}
