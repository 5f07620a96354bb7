//! Active-response selection and the model constructors.

use mockerize_cli::http::Method;
use mockerize_cli::http::Response;
use mockerize_cli::http::ResponseType;
use mockerize_cli::http::Route;

#[test]
fn can_default_active_response() {
    let response1 = Response::new("", 200, ResponseType::Text, "hello");
    let resp1_id = response1.id.clone();
    let response2 = Response::new("", 204, ResponseType::Text, "");
    let resp2_id = response2.id.clone();
    let mut route = Route::new("/text", Method::GET);
    route.add_response(response1);
    route.add_response(response2);

    let active_response = route.get_active_response();
    assert!(active_response.is_some());
    assert_eq!(active_response.unwrap().id, resp1_id);

    route.set_active_response(&resp2_id);
    let new_active_response = route.get_active_response();
    assert_eq!(new_active_response.unwrap().id, resp2_id);
}

#[test]
fn set_active_response_updates_all_internal_references() {
    let mut route = Route::new("/", Method::GET);

    assert_eq!(route.active_response_id(), None);
    assert!(route.get_active_response().is_none());

    let resp = Response::new("", 200, ResponseType::Text, "");
    let resp_id = resp.id.clone();
    route.add_response(resp);
    route.set_active_response(&resp_id);

    assert_eq!(route.active_response_id(), Some(&resp_id));
    let returned_resp = route.get_active_response();
    assert!(returned_resp.is_some());
    let returned_resp = returned_resp.unwrap();
    assert_eq!(returned_resp.id, resp_id);
}

#[test]
fn selecting_an_absent_response_leaves_no_active_response() {
    let resp = Response::new("only", 200, ResponseType::Text, "body");
    let mut route = Route::new("/x", Method::GET);
    route.add_response(resp);
    assert!(route.get_active_response().is_some());

    route.set_active_response("no-such-id");
    assert!(route.get_active_response().is_none());
}

#[test]
fn fresh_identifiers_are_hyphenated_and_distinct() {
    let a = mockerize_cli::ids::fresh_id();
    let b = mockerize_cli::ids::fresh_id();
    assert_eq!(a.chars().count(), 36);
    assert_eq!(b.chars().count(), 36);
    assert_ne!(a, b);
}

#[test]
fn new_command_builds_the_requested_configuration() {
    let cmd = mockerize_cli::cli::NewCommand {
        config_path: "out.json".to_string(),
        name: "My server".to_string(),
        address: "0.0.0.0".to_string(),
        port: 9001,
        confirm: true,
    };
    let si = cmd.build_server_info().expect("valid address must be accepted");
    assert_eq!(si.server.name, "My server");
    assert_eq!(si.server.address, "0.0.0.0");
    assert_eq!(si.server.port, 9001);
    assert_eq!(si.router.routes.len(), 1);
    assert_eq!(si.router.routes[0].path, "/hello-world");

    let bad = mockerize_cli::cli::NewCommand {
        config_path: "out.json".to_string(),
        name: "x".to_string(),
        address: "not-an-address".to_string(),
        port: 1,
        confirm: false,
    };
    let err = bad.build_server_info().expect_err("invalid address must be rejected");
    assert_eq!(err.address, "not-an-address");
    assert!(err.message().contains("not-an-address"));
}

#[test]
fn test_command_accepts_valid_and_rejects_invalid_documents() {
    let cmd = mockerize_cli::cli::TestCommand { config_file: "config.json".to_string() };
    let good = "{\"server\":{\"id\":\"s1\",\"routerId\":\"r1\",\"address\":\"127.0.0.1\",\"port\":8080,\"name\":\"n\",\"description\":\"d\",\"headers\":[]},\"router\":{\"id\":\"r1\",\"serverId\":\"s1\",\"routes\":[]}}";
    assert!(cmd.handle(good).is_ok());
    assert!(cmd.handle("{ not a document").is_err());
}

#[test]
fn confirmation_answers_are_understood() {
    assert_eq!(mockerize_cli::cli::command::parse_confirmation("y"), Some(true));
    assert_eq!(mockerize_cli::cli::command::parse_confirmation("  YES \n"), Some(true));
    assert_eq!(mockerize_cli::cli::command::parse_confirmation("No"), Some(false));
    assert_eq!(mockerize_cli::cli::command::parse_confirmation("n"), Some(false));
    assert_eq!(mockerize_cli::cli::command::parse_confirmation("maybe"), None);
    assert_eq!(mockerize_cli::cli::command::parse_confirmation("   "), None);
}

#[test]
fn listen_addresses_are_validated() {
    assert!(mockerize_cli::ipaddr::check_ip_str("127.0.0.1"));
    assert!(mockerize_cli::ipaddr::check_ip_str("0.0.0.0"));
    assert!(mockerize_cli::ipaddr::check_ip_str("::1"));
    assert!(mockerize_cli::ipaddr::check_ip_str("2001:db8:0:0:0:0:2:1"));
    assert!(mockerize_cli::ipaddr::check_ip_str("fe80::1"));
    assert!(!mockerize_cli::ipaddr::check_ip_str("256.0.0.1"));
    assert!(!mockerize_cli::ipaddr::check_ip_str("1.2.3"));
    assert!(!mockerize_cli::ipaddr::check_ip_str("01.2.3.4"));
    assert!(!mockerize_cli::ipaddr::check_ip_str("invalid.ip.addr"));
    assert!(!mockerize_cli::ipaddr::check_ip_str("1::2::3"));
}
