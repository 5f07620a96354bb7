//! The header cascade, the path pattern compiler and the route table.

use mockerize_cli::http::Header;
use mockerize_cli::http::Method;
use mockerize_cli::http::Response;
use mockerize_cli::http::ResponseType;
use mockerize_cli::http::Route;
use mockerize_cli::http::ServerInfo;
use mockerize_cli::startup::build_route_table;
use mockerize_cli::startup::make_route_handler;
use mockerize_cli::startup::merge_headers;
use mockerize_cli::startup::transform_route_path;

#[test]
fn test_transform_route_path_handles_substitutions_correctly() {
    let result = transform_route_path("/apple/banana/:substitute/date");
    assert_eq!(result, "/apple/banana/{substitute}/date");

    let result = transform_route_path(":substitute-with-non__alpha.numerics");
    assert_eq!(result, "{substitute_with_non_alpha_numerics}");

    let result = transform_route_path("/doesn't/modify+the/normal/segments#at all");
    assert_eq!(result, "/doesn't/modify+the/normal/segments#at all");

    let result = transform_route_path(":-begin-with-non-alpha");
    assert_eq!(result, "{begin_with_non_alpha}");
}

#[test]
fn test_make_route_handler() {
    let response = Response::new("name", 200, ResponseType::Text, "body");
    let id = response.id.clone();

    let mut route = Route::new("/index", Method::GET);
    route.add_response(response);
    route.set_active_response(&id);

    let server_headers: Vec<Header> = Vec::new();
    let handler = make_route_handler(&server_headers, &route);
    assert!(handler.is_some());
}

#[test]
fn route_without_active_response_contributes_no_handler() {
    let route = Route::new("/empty", Method::GET);
    let server_headers: Vec<Header> = Vec::new();
    assert!(make_route_handler(&server_headers, &route).is_none());
}

fn header(key: &str, value: &str) -> Header {
    Header::new(key, value)
}

fn value_of<'a>(headers: &'a [Header], key: &str) -> Option<&'a str> {
    for h in headers {
        if h.key == key {
            return Some(&h.value);
        }
    }
    None
}

#[test]
fn later_scopes_override_earlier_ones() {
    let server = vec![header("k", "1")];
    let route = vec![header("k", "2")];
    let response = vec![header("k", "3")];
    let merged = merge_headers(&server, &route, &response);
    assert_eq!(merged.len(), 1);
    assert_eq!(value_of(&merged, "k"), Some("3"));
}

#[test]
fn response_scope_overrides_server_scope_and_unique_keys_survive() {
    let server = vec![header("shared", "server"), header("only-server", "s")];
    let route: Vec<Header> = Vec::new();
    let response = vec![header("shared", "response"), header("only-response", "r")];
    let merged = merge_headers(&server, &route, &response);
    assert_eq!(merged.len(), 3);
    assert_eq!(value_of(&merged, "shared"), Some("response"));
    assert_eq!(value_of(&merged, "only-server"), Some("s"));
    assert_eq!(value_of(&merged, "only-response"), Some("r"));
}

#[test]
fn merging_a_merge_with_itself_changes_nothing() {
    let server = vec![header("a", "1"), header("b", "2")];
    let route = vec![header("b", "3")];
    let response = vec![header("c", "4")];
    let merged = merge_headers(&server, &route, &response);
    let again = merge_headers(&merged, &merged, &merged);
    assert_eq!(again, merged);
}

#[test]
fn one_route_configuration_serves_hello_world() {
    let response = Response::new("hello", 200, ResponseType::Text, "Hello, World");
    let resp_id = response.id.clone();
    let mut route = Route::new("/hello", Method::GET);
    route.add_response(response);
    route.set_active_response(&resp_id);

    let mut serverinfo = ServerInfo::new().unwrap();
    serverinfo.router.add_route(route);

    let table = build_route_table(&serverinfo);
    assert_eq!(table.len(), 1);
    assert_eq!(table[0].method, Method::GET);
    assert_eq!(table[0].path, "/hello");
    assert_eq!(table[0].status, 200);
    assert_eq!(table[0].body, "Hello, World");
    assert!(table[0].headers.is_empty());
    // no registration exists for any other path
    assert!(table.iter().all(|e| e.path == "/hello"));
}

#[test]
fn route_table_merges_all_three_header_scopes() {
    let mut response = Response::new("ok", 200, ResponseType::Text, "payload");
    response.add_header(header("override-by-response-key", "response"));
    response.add_header(header("response-level-key", "response-level-value"));
    let resp_id = response.id.clone();

    let mut route = Route::new("/test", Method::GET);
    route.add_header(header("override-by-route-key", "route"));
    route.add_header(header("override-by-response-key", "route"));
    route.add_header(header("route-level-key", "route-level-value"));
    route.add_response(response);
    route.set_active_response(&resp_id);

    let mut serverinfo = ServerInfo::new().unwrap();
    serverinfo.server.headers.push(header("server-level-key", "server-level-value"));
    serverinfo.server.headers.push(header("override-by-route-key", "server"));
    serverinfo.server.headers.push(header("override-by-response-key", "server"));
    serverinfo.router.add_route(route);

    let table = build_route_table(&serverinfo);
    assert_eq!(table.len(), 1);
    let merged = &table[0].headers;
    assert_eq!(value_of(merged, "server-level-key"), Some("server-level-value"));
    assert_eq!(value_of(merged, "override-by-route-key"), Some("route"));
    assert_eq!(value_of(merged, "override-by-response-key"), Some("response"));
    assert_eq!(value_of(merged, "route-level-key"), Some("route-level-value"));
    assert_eq!(value_of(merged, "response-level-key"), Some("response-level-value"));
}

#[test]
fn method_names_are_their_tokens() {
    assert_eq!(Method::GET.name(), "GET");
    assert_eq!(Method::DELETE.name(), "DELETE");
    assert_eq!(Method::PATCH.name(), "PATCH");
}
