use myx::callback::{code_from_target, http_response, request_target};
use myx::engine::auth;
use myx::webapi;

#[test]
fn code_is_the_first_code_parameter() {
    assert_eq!(code_from_target("/login?code=AQB&state=x").as_deref(), Some("AQB"));
    assert_eq!(code_from_target("/login?state=x&code=AQB").as_deref(), Some("AQB"));
    assert_eq!(code_from_target("/login?code=1&code=2").as_deref(), Some("1"));
    assert_eq!(code_from_target("/login?code=a=b").as_deref(), Some("a=b"));
    assert_eq!(code_from_target("/login?code=").as_deref(), Some(""));
    assert_eq!(code_from_target("?code=a?b").as_deref(), Some("a?b"));
}

#[test]
fn no_code_without_the_parameter() {
    for target in ["", "/login", "/login?", "/login?code", "/login?codes=1", "/login?error=denied",
        "/code=1", "/favicon.ico?x=1&code"] {
        assert!(code_from_target(target).is_none());
    }
}

#[test]
fn target_is_the_second_word() {
    assert_eq!(request_target("GET /login?code=1&state=2 HTTP/1.1\r\n"), "/login?code=1&state=2");
    assert_eq!(request_target("  GET \t /x  "), "/x");
    assert_eq!(request_target("GET"), "");
    assert_eq!(request_target(""), "");
    assert_eq!(request_target("GET \u{3000}/y"), "/y");
}

#[test]
fn response_counts_bytes() {
    assert_eq!(
        http_response("200 OK", "hé"),
        "HTTP/1.1 200 OK\r\nContent-Length: 3\r\nContent-Type: text/plain\r\n\r\nhé"
    );
}

#[test]
fn streaming_callback_answers() {
    let ok = auth::answer("GET /login?code=abc&state=s HTTP/1.1\r\n");
    assert_eq!(ok.code.as_deref(), Some("abc"));
    assert_eq!(
        ok.response,
        "HTTP/1.1 200 OK\r\nContent-Length: 42\r\nContent-Type: text/plain\r\n\r\n\
         myx authenticated. You can close this tab."
    );
    let other = auth::answer("GET /favicon.ico HTTP/1.1\r\n");
    assert!(other.code.is_none());
    assert_eq!(
        other.response,
        "HTTP/1.1 404 Not Found\r\nContent-Length: 0\r\nContent-Type: text/plain\r\n\r\n"
    );
}

#[test]
fn web_api_callback_answers() {
    let ok = webapi::answer("GET /login?code=abc HTTP/1.1\r\n");
    assert_eq!(ok.code.as_deref(), Some("abc"));
    assert!(ok.response.starts_with("HTTP/1.1 200 OK\r\nContent-Length: 39\r\n"));
    assert!(ok.response.ends_with("\r\n\r\nmyx authorized. You can close this tab."));
    let other = webapi::answer("garbage");
    assert!(other.code.is_none());
    assert_eq!(
        other.response,
        "HTTP/1.1 200 OK\r\nContent-Length: 0\r\nContent-Type: text/plain\r\n\r\n"
    );
}
