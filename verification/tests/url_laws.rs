use daysquare_backend::parsers::url::{
    parse_api_path, parse_api_queries, parse_api_url, parse_path_param, parse_query_param,
    try_parse_api_url, ApiGet, PathParam, PathParamError, PathsError, QueriesError, QueryParam,
    QueryParamError,
};

#[test]
fn documented_example_parses() {
    let api = parse_api_url("https://spotify.com|v1/{artist,id}/hello?joe=5&bloe=4");
    assert_eq!(
        api,
        ApiGet {
            url: "https://spotify.com",
            ver: "v1",
            paths: vec![
                PathParam { name: "artist", data_type: "id" },
                PathParam { name: "hello", data_type: "const" },
            ],
            queries: Some(vec![
                QueryParam { name: "joe", data_type: "5" },
                QueryParam { name: "bloe", data_type: "4" },
            ]),
        }
    );
}

#[test]
fn surrounding_space_is_ignored() {
    let plain = try_parse_api_url("http://a.b|v2/x/{yy,zz}?q=1");
    let spaced = try_parse_api_url(" \t http://a.b|v2/x/{yy,zz}?q=1 \n");
    assert!(plain.is_some());
    assert_eq!(plain, spaced);
}

#[test]
fn descriptions_that_do_not_match() {
    assert_eq!(try_parse_api_url(""), None);
    assert_eq!(try_parse_api_url("ftp://a|v1/x"), None);
    assert_eq!(try_parse_api_url("http://a|/x"), None);
    assert_eq!(try_parse_api_url("http://a v1/x"), None);
    assert_eq!(try_parse_api_url("http://a|v1/x?"), None);
    assert_eq!(try_parse_api_url("http://a|v1"), None);
    // Paths or queries that are refused.
    assert_eq!(try_parse_api_url("http://a|v1/x//y"), None);
    assert_eq!(try_parse_api_url("http://a|v1/x?a"), None);
}

#[test]
fn base_and_version_are_the_shortest_that_fit() {
    let api = try_parse_api_url("xhttp://a|b|v/1/2").unwrap();
    assert_eq!(api.url, "http://a");
    assert_eq!(api.ver, "b|v");
    assert_eq!(api.paths, vec![PathParam { name: "1", data_type: "const" }, PathParam { name: "2", data_type: "const" }]);
    assert_eq!(api.queries, None);
}

#[test]
fn typed_parameters() {
    assert_eq!(parse_path_param("{ab,cd}"), Ok(PathParam { name: "ab", data_type: "cd" }));
    assert_eq!(parse_path_param("x{ab,cd}y"), Ok(PathParam { name: "ab", data_type: "cd" }));
    assert_eq!(parse_path_param("{a b,c}d}"), Ok(PathParam { name: "a b", data_type: "c}d" }));
    // A name or data type needs two characters or more.
    assert_eq!(parse_path_param("{a,bc}"), Err(PathParamError::IllFormedParam("{a,bc}".to_string())));
    assert_eq!(parse_path_param("{ab,c}"), Err(PathParamError::IllFormedParam("{ab,c}".to_string())));
    assert_eq!(parse_path_param("{ ab,cd}"), Err(PathParamError::IllFormedParam("{ ab,cd}".to_string())));
    assert_eq!(parse_path_param("plain"), Ok(PathParam { name: "plain", data_type: "const" }));
    assert_eq!(parse_path_param(""), Err(PathParamError::EmptyParam));
}

#[test]
fn every_path_error() {
    assert_eq!(parse_api_path(""), Err(PathsError::EmptyPath));
    assert_eq!(parse_api_path("a/b"), Err(PathsError::StartSlash("a/b".to_string())));
    assert_eq!(parse_api_path("/"), Err(PathsError::BadPath(PathParamError::EmptyParam)));
    assert_eq!(
        parse_api_path("/a/}/"),
        Err(PathsError::BadPath(PathParamError::IllFormedParam("}".to_string())))
    );
}

#[test]
fn one_parameter_per_segment() {
    let path = "/a/{bb,cc}/d/{ee,ff}";
    let params = parse_api_path(path).unwrap();
    let segments: Vec<&str> = path[1..].split('/').collect();
    assert_eq!(params.len(), segments.len());
    for (p, s) in params.iter().zip(segments.iter()) {
        assert_eq!(*p, parse_path_param(s).unwrap());
        assert!(!p.name.is_empty() && !p.data_type.is_empty());
        assert!(!p.name.contains('/') && !p.data_type.contains('/'));
    }
}

#[test]
fn every_query_error() {
    assert_eq!(parse_api_queries(""), Err(QueriesError::EmptyQueries));
    assert_eq!(parse_api_queries("a=b&"), Err(QueriesError::BadQuery(QueryParamError::EmptyParam)));
    assert_eq!(
        parse_api_queries("a=b&c=d=e"),
        Err(QueriesError::BadQuery(QueryParamError::IllFormedParam("c=d=e".to_string())))
    );
    assert_eq!(parse_query_param(""), Err(QueryParamError::EmptyParam));
    assert_eq!(parse_query_param("=x"), Ok(QueryParam { name: "", data_type: "x" }));
}

#[test]
fn one_parameter_per_pair() {
    let q = "a=1&b=&=c";
    let params = parse_api_queries(q).unwrap();
    assert_eq!(params.len(), 3);
    for (p, s) in params.iter().zip(q.split('&')) {
        assert_eq!(*p, parse_query_param(s).unwrap());
        assert!(!p.name.contains('=') && !p.name.contains('&'));
        assert!(!p.data_type.contains('=') && !p.data_type.contains('&'));
    }
}

#[test]
fn error_conversions() {
    assert_eq!(PathsError::from(PathParamError::EmptyParam), PathsError::BadPath(PathParamError::EmptyParam));
    assert_eq!(
        QueriesError::from(QueryParamError::EmptyParam),
        QueriesError::BadQuery(QueryParamError::EmptyParam)
    );
}

#[test]
fn accepted_descriptions_have_a_web_base_and_a_version() {
    for text in [
        "http://x|v/a",
        "https://x|1/a/{bb,cc}?k=v",
        "  junk https://api.example.com/open|v1.0/me ",
    ] {
        let api = try_parse_api_url(text).unwrap();
        assert!(api.url.starts_with("http://") || api.url.starts_with("https://"));
        assert!(api.url.len() > "http://".len());
        assert!(!api.ver.is_empty());
        assert!(!api.url.chars().any(char::is_whitespace));
        assert!(!api.ver.chars().any(char::is_whitespace));
    }
}
