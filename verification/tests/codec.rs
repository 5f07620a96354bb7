//! Reading and writing configuration documents.

use mockerize_cli::http::route::Route;
use mockerize_cli::http::router::Router;
use mockerize_cli::http::server::Server;
use mockerize_cli::http::serverinfo::ServerInfo;
use mockerize_cli::http::Method;
use mockerize_cli::http::Response;
use mockerize_cli::http::ResponseType;

#[test]
fn can_deserialize_route() {
    let json = r###"
        {
            "id": "bba078b1-742f-43c1-aded-5ad665decaa0",
                "path": "/index",
                "responses": [
                    {
                        "id": "df5d9688-9af9-4377-ba09-72056ea2570c",
                        "name": "Not Found",
                        "status": 404,
                        "response": "<html><body><h1>404 - Page Not Found</h1>Could not locate the requested resource.</body></html>",
                        "responseType": "text",
                        "active": false,
                        "headers": []
                    },
                    {
                        "id": "df5d9688-9af9-4377-ba09-72056ea2570c",
                        "name": "Index",
                        "status": 200,
                        "response": "<html><body><h1>Hello, World!</h1>Example only.</body></html>",
                        "responseType": "text",
                        "active": true,
                        "headers": []
                    },
                    {
                        "id": "13163edf-2650-4533-baad-64e986621781",
                        "name": "Index - as JSON",
                        "status": 200,
                        "response": "{\"status\": 200, \"title\": \"Hello, World\", \"content\": \"Example only.\"}",
                        "responseType": "json",
                        "active": false,
                        "headers": []
                    }
                ],
                "activeResponse": "df5d9688-9af9-4377-ba09-72056ea2570c",
                "method": "GET",
                "headers": []
        }
        "###;

    let route: Route = Route::from_json_str(json).expect("Unable to parse JSON.");
    assert_eq!(route.id, "bba078b1-742f-43c1-aded-5ad665decaa0");
    assert_eq!(route.path, "/index");
    assert_eq!(route.responses.len(), 3);
    assert_eq!(route.method, Method::GET);

    // After deserialization, the correct active response index should have been set
    // so `get_active_response()` should return the actual Response referenced as `active_response`
    assert_eq!(
        route.active_response_id().unwrap(),
        "df5d9688-9af9-4377-ba09-72056ea2570c"
    );
    assert_eq!(
        route.get_active_response().unwrap().id,
        "df5d9688-9af9-4377-ba09-72056ea2570c"
    );
}

#[test]
fn can_deserialize_router() {
    let json = r###"
        {
            "id": "38fcf7b9-c409-4941-9520-a913ae8e205f",
            "serverId": "9c2e8c77-7c90-4d8c-8154-0ea25d3723c4",
            "routes": [
                {
                    "id": "a27d777e-0321-44e3-a233-f4271cf7e05c",
                    "path": "/hello-world",
                    "responses": [
                        {
                            "id": "8cd81b4a-046a-47e9-87ec-75a01b850a64",
                            "name": "Show Hello World",
                            "status": 200,
                            "response": "Hello World",
                            "responseType": "text",
                            "active": true,
                            "headers": []
                        }
                    ],
                    "activeResponse": "8cd81b4a-046a-47e9-87ec-75a01b850a64",
                    "method": "GET",
                    "headers": []
                },
                {
                    "id": "9f0ed395-3acc-46bb-9b8d-df8fd62f593f",
                    "path": "/healthz",
                    "responses": [
                        {
                            "id": "3af4f7c7-79b7-4c3c-8495-a899e6ed3a3f",
                            "name": "Health check OK",
                            "status": 204,
                            "response": "{\"status\": \"OK\"}",
                            "responseType": "json",
                            "active": true,
                            "headers": []
                        }
                    ],
                    "activeResponse": "3af4f7c7-79b7-4c3c-8495-a899e6ed3a3f",
                    "method": "GET",
                    "headers": []
                }
            ]
        }
        "###;

    let router: Router = Router::from_json_str(json).expect("Unable to parse JSON.");
    assert_eq!(router.id, "38fcf7b9-c409-4941-9520-a913ae8e205f");
    assert_eq!(
        router.server_id,
        Some(String::from("9c2e8c77-7c90-4d8c-8154-0ea25d3723c4"))
    );
    assert_eq!(router.routes.len(), 2);
}

#[test]
fn can_deserialize_server() {
    let json = r###"
        {
            "id": "a3c6bf8d-57ab-4693-94dd-4d3a47dd1403",
            "address": "127.0.0.1",
            "port": 8080,
            "name": "Unit Test",
            "headers": [
                {
                    "id": "5ea28783-d770-4754-98e9-749aab005511",
                    "key": "Content-Type",
                    "value": "application/html",
                    "active": true
                }
            ],
            "routerId": "d49427b0-8d2f-47cc-a5b4-c3754c53583b",
            "description": "Just an example of a server in JSON."
        }
        "###;

    let server: Server = Server::from_json_str(json).expect("Unable to parse JSON.");
    assert_eq!(server.id, "a3c6bf8d-57ab-4693-94dd-4d3a47dd1403");
    assert_eq!(server.address, "127.0.0.1");
    assert_eq!(server.port, 8080);
    assert_eq!(server.name, "Unit Test");
    assert_eq!(server.headers.len(), 1);
    assert_eq!(
        server.headers.first().unwrap().id,
        "5ea28783-d770-4754-98e9-749aab005511"
    );
    assert_eq!(server.router_id, "d49427b0-8d2f-47cc-a5b4-c3754c53583b");
    assert_eq!(server.description, "Just an example of a server in JSON.");
}

#[test]
fn cannot_use_invalid_ip_address() {
    let server = Server::new(&mockerize_cli::ids::fresh_id(), "invalid.ip.addr", 0);
    assert!(server.is_err());

    let json = r###"
        {
            "id": "a3c6bf8d-57ab-4693-94dd-4d3a47dd1403",
            "address": "invalid.ip.addr",
            "port": 8080,
            "name": "Unit Test",
            "headers": [
                {
                    "id": "5ea28783-d770-4754-98e9-749aab005511",
                    "key": "Content-Type",
                    "value": "application/html",
                    "active": true
                }
            ],
            "routerId": "d49427b0-8d2f-47cc-a5b4-c3754c53583b",
            "description": "Just an example of a server in JSON."
        }
        "###;

    let server = Server::from_json_str(json);
    assert!(server.is_err());
}

#[test]
fn can_serialize_serverinfo() {
    let response = Response::new("response name", 200, ResponseType::Text, "body");
    let resp_id = response.id.clone();
    let mut route = Route::new("/hello-world", Method::GET);
    route.add_response(response);
    route.set_active_response(&resp_id);

    let mut serverinfo = ServerInfo::new().unwrap();
    serverinfo.server.name = "server name".to_string();
    serverinfo.server.description = "description".to_string();
    serverinfo.router.add_route(route);

    // Serialize to a document, then read it back to make sure the structure is correct (implicit test)
    let json = serverinfo.to_json_string();
    let _serverinfo: ServerInfo =
        ServerInfo::from_json_str(&json).expect("Could not deserialize JSON");
}

#[test]
fn load_after_save_returns_the_saved_configuration() {
    let response = Response::new("Example", 200, ResponseType::Text, "Hello, World");
    let resp_id = response.id.clone();
    let mut route = Route::new("/hello-world", Method::GET);
    route.add_header(mockerize_cli::http::Header::new("X-Route", "r"));
    route.add_response(response);
    route.set_active_response(&resp_id);

    let mut serverinfo = ServerInfo::new().unwrap();
    serverinfo.server.name = "round trip".to_string();
    serverinfo.server.description = "a \"quoted\"\nline".to_string();
    serverinfo
        .server
        .headers
        .push(mockerize_cli::http::Header::new("X-Server", "s"));
    serverinfo.router.add_route(route);

    let saved = serverinfo.to_json_string();
    let loaded = ServerInfo::from_json_str(&saved).expect("saved configuration must load");
    assert_eq!(loaded, serverinfo);
}

#[test]
fn canonical_document_survives_load_and_save_verbatim() {
    let doc = "{\"server\":{\"id\":\"s1\",\"routerId\":\"r1\",\"address\":\"127.0.0.1\",\"port\":8080,\"name\":\"n\",\"description\":\"d\",\"headers\":[]},\"router\":{\"id\":\"r1\",\"serverId\":\"s1\",\"routes\":[]}}";
    let loaded = ServerInfo::from_json_str(doc).expect("canonical document must load");
    assert_eq!(loaded.to_json_string(), doc);
}

#[test]
fn unknown_fields_are_rejected() {
    let doc = "{\"server\":{\"id\":\"s1\",\"routerId\":\"r1\",\"address\":\"127.0.0.1\",\"port\":8080,\"name\":\"n\",\"description\":\"d\",\"headers\":[],\"extra\":1},\"router\":{\"id\":\"r1\",\"serverId\":\"s1\",\"routes\":[]}}";
    assert!(ServerInfo::from_json_str(doc).is_err());
}

#[test]
fn malformed_document_reports_line_and_column() {
    let doc = "{\n\"server\": oops";
    let err = ServerInfo::from_json_str(doc).expect_err("malformed document must be rejected");
    let message = err.message();
    assert!(
        message.contains("line 2 column 11"),
        "unexpected message: {}",
        message
    );
}

#[test]
fn string_escapes_round_trip() {
    let json = "{\"id\":\"h1\",\"key\":\"K\",\"value\":\"tab\\there \\\"q\\\" \\u0041\",\"active\":true}";
    let doc = format!(
        "{{\"server\":{{\"id\":\"s1\",\"routerId\":\"r1\",\"address\":\"127.0.0.1\",\"port\":1,\"name\":\"\",\"description\":\"\",\"headers\":[{}]}},\"router\":{{\"id\":\"r1\",\"serverId\":null,\"routes\":[]}}}}",
        json
    );
    let loaded = ServerInfo::from_json_str(&doc).expect("document with escapes must load");
    assert_eq!(loaded.server.headers[0].value, "tab\there \"q\" A");
    let saved = loaded.to_json_string();
    let again = ServerInfo::from_json_str(&saved).expect("saved form must load again");
    assert_eq!(again, loaded);
}
