use daysquare_backend::parsers::url::{
    parse_api_path, parse_api_queries, parse_api_url, ApiGet, PathParam, PathParamError,
    PathsError, QueriesError, QueryParam, QueryParamError,
};

#[test]
fn parse_correct_api() {
    let mut query;
    let mut result;

    query = "http://spotify.com|v1/helloworld/myman/mwhahahah";
    result = parse_api_url(query);
    assert!(result == ApiGet {
        url: "http://spotify.com",
        ver: "v1",
        paths: Vec::from([
             PathParam {
                 name: "helloworld",
                 data_type: "const",
             },
             PathParam {
                 name: "myman",
                 data_type: "const",
             },
             PathParam {
                 name: "mwhahahah",
                 data_type: "const",
             }
        ]),
        queries: None,
    });

    query = "https://spotify.com|v4/hello-world/{artist,world}?bonvoyage=3&john=3";
    result = parse_api_url(query);
    assert!(result == ApiGet {
        url: "https://spotify.com",
        ver: "v4",
        paths: Vec::from([
             PathParam {
                 name: "hello-world",
                 data_type: "const",
             },
             PathParam {
                 name: "artist",
                 data_type: "world",
             },
        ]),
        queries: Some(Vec::from([
            QueryParam {
                name: "bonvoyage",
                data_type: "3",
            },
            QueryParam {
                name: "john",
                data_type: "3",
            },
        ])),
    });

    query = "https://www.googleapis.com/youtube|v3/channels";
    result = parse_api_url(query);
    assert!(result == ApiGet {
        url: "https://www.googleapis.com/youtube",
        ver: "v3",
        paths: Vec::from([
             PathParam {
                 name: "channels",
                 data_type: "const",
             }]),
        queries: None,
    });

    query = "https://graph.microsoft.com|v1.0/me/messages?filter=emailAddress";
    result = parse_api_url(query);
    assert!(result == ApiGet {
        url: "https://graph.microsoft.com",
        ver: "v1.0",
        paths: Vec::from([
             PathParam {
                 name: "me",
                 data_type: "const",
             },
             PathParam {
                 name: "messages",
                 data_type: "const",
             },
        ]),
        queries: Some(Vec::from([
            QueryParam {
                name: "filter",
                data_type: "emailAddress",
            },
        ])),
    });

    query = "https://api.ticktick.com/open|v1/project/{projectId,string}/task/{taskId,string}";
    result = parse_api_url(&query);
    assert!(result == ApiGet {
        url: "https://api.ticktick.com/open",
        ver: "v1",
        paths: Vec::from([
             PathParam {
                 name: "project",
                 data_type: "const",
             },
             PathParam {
                 name: "projectId",
                 data_type: "string",
             },
             PathParam {
                 name: "task",
                 data_type: "const",
             },
             PathParam {
                 name: "taskId",
                 data_type: "string",
             },
        ]),
        queries: None,
    });
        
}

#[test]
fn parse_correct_paths() {
    let mut path;
    let mut parse_path;
    path = "/hello/world/how";
    parse_path = parse_api_path(&path).unwrap();
    assert!(parse_path.len() == 3);
    assert!(parse_path[0] == PathParam { name: "hello", data_type: "const"});
    assert!(parse_path[1] == PathParam { name: &"world", data_type: &"const"});
    assert!(parse_path[2] == PathParam { name: &"how", data_type: &"const"});

    path = "/hello/{artist,spotify_artist_id}/tbd";
    parse_path = parse_api_path(&path).unwrap();
    assert!(parse_path.len() == 3);
    assert!(parse_path[0] == PathParam { name: &"hello", data_type: &"const"});
    assert!(parse_path[1] == PathParam { name: &"artist", data_type: &"spotify_artist_id"});
    assert!(parse_path[2] == PathParam { name: &"tbd", data_type: &"const"});
}

#[test]
fn parse_incorrect_paths() {
    let mut path;
    let mut parse_path;

    path = "/hello/world/";
    parse_path = parse_api_path(&path).unwrap_err();
    assert!(parse_path == PathsError::from(PathParamError::EmptyParam));

    path = "/hello//world";
    parse_path = parse_api_path(&path).unwrap_err();
    assert!(parse_path == PathsError::from(PathParamError::EmptyParam));

    path = "/hello/world,hi";
    parse_path = parse_api_path(&path).unwrap_err();
    assert!(parse_path == PathsError::from(PathParamError::IllFormedParam("world,hi".to_string())));

    path = "/hello/{world";
    parse_path = parse_api_path(&path).unwrap_err();
    assert!(parse_path == PathsError::from(PathParamError::IllFormedParam("{world".to_string())));
    
    path = "";
    parse_path = parse_api_path(&path).unwrap_err();
    assert!(parse_path == PathsError::EmptyPath);

    path = "hello/world";
    parse_path = parse_api_path(&path).unwrap_err();
    assert!(parse_path == PathsError::StartSlash("hello/world".to_string()));
}

#[test]
fn parse_correct_query() {
    let mut query;
    let mut queries;

    query = "john=int&offset=str";
    queries = parse_api_queries(&query).unwrap();
    assert!(queries.len() == 2);
    assert!(queries[0] == QueryParam { name: "john", data_type: "int"} );
    assert!(queries[1] == QueryParam { name: "offset", data_type: "str" } );

    query = "artist_id=int";
    queries = parse_api_queries(&query).unwrap();
    assert!(queries.len() == 1);
    assert!(queries[0] == QueryParam { name: "artist_id", data_type: "int"} );
}

#[test]
fn parse_incorrect_queries() {
    let mut query;
    let mut queries;

    query = "";
    queries = parse_api_queries(&query).unwrap_err();
    assert!(queries == QueriesError::EmptyQueries);

    query = "&";
    queries = parse_api_queries(&query).unwrap_err();
    assert!(queries == QueriesError::from(QueryParamError::EmptyParam));


    query = "&test=hello";
    queries = parse_api_queries(&query).unwrap_err();
    assert!(queries == QueriesError::from(QueryParamError::EmptyParam));

    query = "test=hello&";
    queries = parse_api_queries(&query).unwrap_err();
    assert!(queries == QueriesError::from(QueryParamError::EmptyParam));

    query = "lo&hello=hi";
    queries = parse_api_queries(&query).unwrap_err();
    assert!(queries == QueriesError::from(QueryParamError::IllFormedParam("lo".to_string())));
}

#[test]
fn verify_query() {

}
