use trieve_cli::extract::{extract_api_key, extract_cookie_token};

#[test]
fn query_strategy_yields_the_api_key() {
    let got = extract_api_key("GET /?apiKey=ABC123&x=1 HTTP/1.1");
    assert_eq!(got, Some("ABC123".to_string()));
}

#[test]
fn query_strategy_on_a_full_request() {
    let request = "GET /?apiKey=ABC123&x=1 HTTP/1.1\r\nHost: localhost:65535\r\nAccept: */*\r\n\r\n";
    assert_eq!(extract_api_key(request), Some("ABC123".to_string()));
}

#[test]
fn query_strategy_token_at_end_of_target() {
    assert_eq!(
        extract_api_key("GET /?apiKey=XYZ HTTP/1.1\r\n"),
        Some("XYZ".to_string())
    );
}

#[test]
fn query_strategy_without_marker_yields_nothing() {
    assert_eq!(extract_api_key("GET /favicon.ico HTTP/1.1\r\nHost: x\r\n"), None);
}

#[test]
fn query_strategy_on_empty_input_yields_nothing() {
    assert_eq!(extract_api_key(""), None);
}

#[test]
fn query_strategy_without_request_target_yields_nothing() {
    assert_eq!(extract_api_key("GET"), None);
    assert_eq!(extract_api_key("GET   "), None);
}

#[test]
fn query_strategy_empty_value_yields_empty_token() {
    assert_eq!(extract_api_key("GET /?apiKey=&x=1 HTTP/1.1"), Some("".to_string()));
}

#[test]
fn header_strategy_yields_the_cookie_value() {
    assert_eq!(
        extract_cookie_token("Cookie: session=XYZ789"),
        Some("XYZ789".to_string())
    );
}

#[test]
fn header_strategy_on_a_full_request() {
    let request = "GET / HTTP/1.1\r\nHost: localhost:65535\r\nCookie: session=XYZ789\r\nAccept: */*\r\n\r\n";
    assert_eq!(extract_cookie_token(request), Some("XYZ789".to_string()));
}

#[test]
fn header_strategy_stops_at_cookie_separator() {
    assert_eq!(
        extract_cookie_token("Cookie: session=ABC; theme=dark\r\n"),
        Some("ABC".to_string())
    );
}

#[test]
fn header_strategy_without_cookie_line_yields_nothing() {
    assert_eq!(extract_cookie_token("GET / HTTP/1.1\r\nHost: x\r\n\r\n"), None);
    assert_eq!(extract_cookie_token(""), None);
}

#[test]
fn header_strategy_without_value_yields_nothing() {
    assert_eq!(extract_cookie_token("Cookie: \r\n"), None);
}
