use meow_engine::script::WebSocketEvent;
use meow_engine::fetch::{
    are_simple_headers, check_preflight, fetch_is_aborted, refused_websocket_events, comma_values, credentials_mode, finish_fetch,
    is_forbidden_request_header, is_simple_content_type, is_simple_method, non_simple_header_names,
    plan_fetch, request_headers, response_headers, validate_cors_response, CredentialsMode,
};

fn pairs(entries: &[(&str, &str)]) -> Vec<(String, String)> {
    entries.iter().map(|(n, v)| (n.to_string(), v.to_string())).collect()
}

fn raw(entries: &[(&str, &str)]) -> Vec<(String, Vec<u8>)> {
    entries.iter().map(|(n, v)| (n.to_string(), v.as_bytes().to_vec())).collect()
}

const ORIGIN: &str = "http://app.test";

fn plan(method: &str, headers: &[(&str, &str)], cross: bool, mode: &str, creds: &str) -> Result<meow_engine::fetch::FetchPlan, String> {
    plan_fetch(true, "http", method, &pairs(headers), ORIGIN, cross, mode, creds)
}

#[test]
fn forbidden_and_simple_predicates() {
    assert!(is_forbidden_request_header("cookie"));
    assert!(is_forbidden_request_header("proxy-authorization"));
    assert!(is_forbidden_request_header("sec-fetch-mode"));
    assert!(!is_forbidden_request_header("x-token"));
    assert!(is_simple_method("GET"));
    assert!(is_simple_method("POST"));
    assert!(!is_simple_method("get"));
    assert!(!is_simple_method("PUT"));
    assert!(is_simple_content_type(" Text/Plain ; charset=utf-8"));
    assert!(is_simple_content_type("multipart/form-data"));
    assert!(!is_simple_content_type("application/json"));
    assert!(are_simple_headers(&pairs(&[("accept", "*/*"), ("content-type", "text/plain")])));
    assert!(!are_simple_headers(&pairs(&[("content-type", "application/json")])));
    assert_eq!(credentials_mode("include"), Some(CredentialsMode::Include));
    assert_eq!(credentials_mode("always"), None);
}

#[test]
fn request_headers_are_lowercased_and_checked_in_order() {
    let checked = request_headers(&pairs(&[("X-Token", "abc"), ("Accept", "*/*")])).unwrap();
    assert_eq!(checked, pairs(&[("x-token", "abc"), ("accept", "*/*")]));
    assert_eq!(
        request_headers(&pairs(&[("bad name", "v"), ("Cookie", "a=b")])),
        Err("invalid HTTP header name".to_owned())
    );
    assert_eq!(
        request_headers(&pairs(&[("Cookie", "a=b")])),
        Err("forbidden request header cookie".to_owned())
    );
    assert_eq!(
        request_headers(&pairs(&[("x-a", "line\nbreak")])),
        Err("failed to parse header value".to_owned())
    );
}

#[test]
fn plan_refuses_in_the_original_order() {
    assert_eq!(
        plan_fetch(false, "file", "GET", &[], ORIGIN, false, "cors", "omit").err(),
        Some("unsupported fetch scheme file".to_owned())
    );
    assert_eq!(plan("GE T", &[], false, "cors", "omit").err(), Some("invalid fetch method GE T".to_owned()));
    assert_eq!(
        plan("GET", &[], true, "same-origin", "omit").err(),
        Some("same-origin fetch blocked a cross-origin URL".to_owned())
    );
    assert_eq!(plan("GET", &[], false, "navigate", "omit").err(), Some("unsupported fetch mode navigate".to_owned()));
    assert_eq!(
        plan("PUT", &[], true, "no-cors", "omit").err(),
        Some("no-cors fetch requires a simple method and headers".to_owned())
    );
    assert_eq!(
        plan("GET", &[], false, "cors", "sometimes").err(),
        Some("unsupported credentials mode sometimes".to_owned())
    );
}

#[test]
fn cross_origin_cors_adds_origin_and_plans_a_preflight() {
    let simple = plan("GET", &[("Accept", "*/*")], true, "cors", "include").unwrap();
    assert!(simple.add_origin);
    assert!(!simple.needs_preflight);
    assert_eq!(simple.credentials, CredentialsMode::Include);
    assert_eq!(simple.headers, pairs(&[("accept", "*/*"), ("origin", ORIGIN)]));
    assert!(simple.preflight_headers.is_empty());

    let complex = plan(
        "PUT",
        &[("X-Zeta", "1"), ("Content-Type", "application/json"), ("X-Alpha", "2"), ("x-zeta", "3")],
        true,
        "cors",
        "omit",
    )
    .unwrap();
    assert!(complex.needs_preflight);
    assert_eq!(complex.method, "PUT");
    assert_eq!(complex.preflight_headers, vec!["content-type", "x-alpha", "x-zeta"]);

    let same = plan("PUT", &[("X-Zeta", "1")], false, "cors", "omit").unwrap();
    assert!(!same.add_origin);
    assert!(!same.needs_preflight);
    assert_eq!(same.headers, pairs(&[("x-zeta", "1")]));
}

#[test]
fn non_simple_names_are_sorted_once() {
    let names = non_simple_header_names(&pairs(&[
        ("x-b", "1"),
        ("accept", "*/*"),
        ("x-a", "2"),
        ("x-b", "3"),
        ("content-type", "text/plain"),
    ]));
    assert_eq!(names, vec!["x-a", "x-b"]);
}

#[test]
fn cors_validation_errors() {
    assert_eq!(
        validate_cors_response(&raw(&[]), ORIGIN, CredentialsMode::Omit),
        Err("CORS response omitted Access-Control-Allow-Origin".to_owned())
    );
    assert_eq!(
        validate_cors_response(&raw(&[("access-control-allow-origin", "http://x.test")]), ORIGIN, CredentialsMode::Omit),
        Err("CORS origin http://app.test was not allowed".to_owned())
    );
    assert_eq!(validate_cors_response(&raw(&[("access-control-allow-origin", "*")]), ORIGIN, CredentialsMode::SameOrigin), Ok(()));
    assert_eq!(
        validate_cors_response(&raw(&[("access-control-allow-origin", "*")]), ORIGIN, CredentialsMode::Include),
        Err("CORS origin http://app.test was not allowed".to_owned())
    );
    assert_eq!(
        validate_cors_response(&raw(&[("access-control-allow-origin", ORIGIN)]), ORIGIN, CredentialsMode::Include),
        Err("credentialed CORS response omitted Access-Control-Allow-Credentials: true".to_owned())
    );
    assert_eq!(
        validate_cors_response(
            &raw(&[("access-control-allow-origin", ORIGIN), ("access-control-allow-credentials", "true")]),
            ORIGIN,
            CredentialsMode::Include
        ),
        Ok(())
    );
}

#[test]
fn comma_values_split_trim_and_skip_empty_items() {
    let headers = raw(&[
        ("access-control-allow-methods", " GET, ,put "),
        ("other", "x"),
        ("access-control-allow-methods", "DELETE"),
    ]);
    assert_eq!(comma_values(&headers, "access-control-allow-methods"), vec!["GET", "put", "DELETE"]);
}

#[test]
fn preflight_checks_status_methods_and_headers() {
    let allow = |extra: &[(&str, &str)]| {
        let mut h = vec![("access-control-allow-origin", ORIGIN)];
        h.extend_from_slice(extra);
        raw(&h)
    };
    let names = vec!["x-a".to_owned(), "x-b".to_owned()];
    assert_eq!(
        check_preflight(404, &allow(&[]), ORIGIN, CredentialsMode::Omit, "PUT", &names),
        Err("CORS preflight failed with status 404 Not Found".to_owned())
    );
    assert_eq!(
        check_preflight(200, &allow(&[("access-control-allow-methods", "GET, POST")]), ORIGIN, CredentialsMode::Omit, "PUT", &names),
        Err("CORS preflight did not allow method PUT".to_owned())
    );
    assert_eq!(
        check_preflight(
            204,
            &allow(&[("access-control-allow-methods", "put"), ("access-control-allow-headers", "X-B")]),
            ORIGIN,
            CredentialsMode::Omit,
            "PUT",
            &names
        ),
        Err("CORS preflight did not allow header x-a".to_owned())
    );
    assert_eq!(
        check_preflight(
            204,
            &allow(&[("access-control-allow-methods", "put"), ("access-control-allow-headers", "*")]),
            ORIGIN,
            CredentialsMode::Omit,
            "PUT",
            &names
        ),
        Ok(())
    );
}

#[test]
fn response_headers_hide_cookies_and_unexposed_names() {
    let headers = raw(&[
        ("content-type", "text/plain"),
        ("set-cookie", "a=b"),
        ("x-secret", "1"),
        ("x-public", "2"),
        ("access-control-expose-headers", "X-Public"),
    ]);
    assert_eq!(
        response_headers(&headers, true),
        pairs(&[("content-type", "text/plain"), ("x-public", "2")])
    );
    assert_eq!(
        response_headers(&headers, false),
        pairs(&[
            ("content-type", "text/plain"),
            ("x-secret", "1"),
            ("x-public", "2"),
            ("access-control-expose-headers", "X-Public")
        ])
    );
    let binary = vec![("x-bin".to_owned(), vec![0xC3u8, 0xA9])];
    assert!(response_headers(&binary, false).is_empty());
}

#[test]
fn finish_applies_redirect_mode_and_origin_rules() {
    let h = raw(&[("content-type", "text/plain")]);
    let finish = |mode: &str, redirect: &str, redirected: bool, cross: bool| {
        finish_fetch(mode, redirect, redirected, cross, ORIGIN, CredentialsMode::Omit, 200, &h, "http://app.test/data", b"hello")
    };
    assert_eq!(finish("cors", "error", true, false).err(), Some("fetch redirect blocked by redirect=error".to_owned()));
    assert_eq!(finish("cors", "manual", false, false).err(), Some("unsupported redirect mode manual".to_owned()));
    assert_eq!(finish("same-origin", "follow", true, true).err(), Some("same-origin fetch redirected cross-origin".to_owned()));
    assert_eq!(
        finish("cors", "follow", false, true).err(),
        Some("CORS response omitted Access-Control-Allow-Origin".to_owned())
    );

    let opaque = finish("no-cors", "follow", true, true).unwrap();
    assert!(opaque.ok);
    assert_eq!(opaque.body.as_deref(), Some(""));
    let response = opaque.response.unwrap();
    assert_eq!(response.status, 0);
    assert_eq!(response.response_type, "opaque");
    assert!(response.headers.is_empty());
    assert!(!response.redirected);

    let basic = finish("cors", "follow", true, false).unwrap();
    assert_eq!(basic.body.as_deref(), Some("hello"));
    let response = basic.response.unwrap();
    assert_eq!(response.status, 200);
    assert_eq!(response.status_text, "OK");
    assert_eq!(response.url, "http://app.test/data");
    assert!(response.redirected);
    assert_eq!(response.response_type, "basic");
    assert_eq!(response.headers, pairs(&[("content-type", "text/plain")]));
}

#[test]
fn finish_decodes_the_body_lossily() {
    let done = finish_fetch("cors", "follow", false, false, ORIGIN, CredentialsMode::Omit, 299, &[], "u", &[0x61, 0xFF]).unwrap();
    assert_eq!(done.body.as_deref(), Some("a\u{FFFD}"));
    assert_eq!(done.response.unwrap().status_text, "");
}

#[test]
fn aborted_signals_and_websocket_refusals() {
    assert!(fetch_is_aborted(Some(3), &[1, 3]));
    assert!(!fetch_is_aborted(Some(2), &[1, 3]));
    assert!(!fetch_is_aborted(None, &[1, 3]));

    let refused = refused_websocket_events("http", false).unwrap();
    assert_eq!(
        refused,
        vec![
            WebSocketEvent::Error { message: "WebSocket URL must use ws or wss".to_owned() },
            WebSocketEvent::Close { code: 1006, reason: String::new(), was_clean: false },
        ]
    );
    let brokered = refused_websocket_events("wss", true).unwrap();
    assert_eq!(
        brokered[1],
        WebSocketEvent::Close { code: 1006, reason: "network permission denied".to_owned(), was_clean: false }
    );
    assert!(refused_websocket_events("ws", false).is_none());
}
