use http::Headers;
use http::HttpRequest;
use http::Method;
use http::Resource;
use http::Version;

#[test]
fn unrecognized_method_tokens() {
    assert_eq!(Method::from_token("PUT"), Method::Uninitialized);
    assert_eq!(Method::from_token(""), Method::Uninitialized);
    assert_eq!(Method::from_token("get"), Method::Uninitialized);
    let req = HttpRequest::decode(String::from("PUT /x HTTP/1.1"));
    assert_eq!(req.method, Method::Uninitialized);
    assert_eq!(req.resource, Resource::Path(String::from("/x")));
    assert_eq!(req.version, Version::V1_1);
}

#[test]
fn exact_method_tokens() {
    assert_eq!(Method::from_token("GET"), Method::Get);
    assert_eq!(Method::from_token("POST"), Method::Post);
}

#[test]
fn version_tokens() {
    assert_eq!(Version::from_token("HTTP/1.1"), Version::V1_1);
    assert_eq!(Version::from_token("HTTP/2.0"), Version::Uninitialized);
    assert_eq!(Version::from_token(""), Version::Uninitialized);
}

#[test]
fn header_split_at_first_colon_only() {
    let (key, value) = http::httprequest::process_header_line("X-Custom: a:b");
    assert_eq!(key, String::from("X-Custom"));
    assert_eq!(value, String::from(" a:b"));
    let req = HttpRequest::decode(String::from("X-Custom: a:b\n"));
    assert_eq!(req.headers.get("X-Custom"), Some(&String::from(" a:b")));
}

#[test]
fn header_line_of_one_colon() {
    let (key, value) = http::httprequest::process_header_line(":");
    assert_eq!(key, String::new());
    assert_eq!(value, String::new());
}

#[test]
fn header_line_without_colon_is_all_key() {
    let (key, value) = http::httprequest::process_header_line("abc");
    assert_eq!(key, String::from("abc"));
    assert_eq!(value, String::new());
}

#[test]
fn duplicate_header_key_keeps_later_value() {
    let req = HttpRequest::decode(String::from("Host: one\nHost: two\n"));
    assert_eq!(req.headers.len(), 1);
    assert_eq!(req.headers.get("Host"), Some(&String::from(" two")));
}

#[test]
fn body_keeps_only_last_line() {
    let req = HttpRequest::decode(String::from("first body\nsecond body\nthird body"));
    assert_eq!(req.msg_body, String::from("third body"));
}

#[test]
fn empty_input_yields_defaults() {
    let req = HttpRequest::decode(String::new());
    assert_eq!(req.method, Method::Uninitialized);
    assert_eq!(req.version, Version::Uninitialized);
    assert_eq!(req.resource, Resource::Path(String::new()));
    assert_eq!(req.headers.len(), 0);
    assert_eq!(req.msg_body, String::new());
}

#[test]
fn resource_without_leading_slash_kept_verbatim() {
    let req = HttpRequest::decode(String::from("GET greeting HTTP/1.1"));
    assert_eq!(req.resource, Resource::Path(String::from("greeting")));
}

#[test]
fn request_line_with_missing_tokens_falls_back() {
    let req = HttpRequest::decode(String::from("HTTP"));
    assert_eq!(req.method, Method::Uninitialized);
    assert_eq!(req.resource, Resource::Path(String::new()));
    assert_eq!(req.version, Version::Uninitialized);

    let req = HttpRequest::decode(String::from("GET HTTP/1.1"));
    assert_eq!(req.method, Method::Get);
    assert_eq!(req.resource, Resource::Path(String::from("HTTP/1.1")));
    assert_eq!(req.version, Version::Uninitialized);
}

#[test]
fn request_line_tokens_split_on_spaces_and_tabs() {
    let (method, resource, version) =
        http::httprequest::process_req_line("GET\t/greeting  HTTP/1.1");
    assert_eq!(method, Method::Get);
    assert_eq!(resource, Resource::Path(String::from("/greeting")));
    assert_eq!(version, Version::V1_1);
}

#[test]
fn request_line_tokens_split_on_any_unicode_whitespace() {
    let req = HttpRequest::decode(String::from("GET /x HTTP/1.1\ry"));
    assert_eq!(req.method, Method::Get);
    assert_eq!(req.resource, Resource::Path(String::from("/x")));
    assert_eq!(req.version, Version::V1_1);

    let (method, resource, version) =
        http::httprequest::process_req_line("GET\u{000C}/x\u{00A0}HTTP/1.1");
    assert_eq!(method, Method::Get);
    assert_eq!(resource, Resource::Path(String::from("/x")));
    assert_eq!(version, Version::V1_1);
}

#[test]
fn later_request_line_overwrites_earlier() {
    let req = HttpRequest::decode(String::from("GET /a HTTP/1.1\nPOST /b HTTP/1.1\n"));
    assert_eq!(req.method, Method::Post);
    assert_eq!(req.resource, Resource::Path(String::from("/b")));
}

#[test]
fn body_line_with_colon_is_taken_for_a_header() {
    let req = HttpRequest::decode(String::from("note: this\n"));
    assert_eq!(req.headers.get("note"), Some(&String::from(" this")));
    assert_eq!(req.msg_body, String::new());
}

#[test]
fn body_line_with_http_is_taken_for_a_request_line() {
    let req = HttpRequest::decode(String::from("say HTTP please"));
    assert_eq!(req.method, Method::Uninitialized);
    assert_eq!(req.resource, Resource::Path(String::from("HTTP")));
    assert_eq!(req.version, Version::Uninitialized);
    assert_eq!(req.msg_body, String::new());
}

#[test]
fn bare_line_feed_separators_work() {
    let req = HttpRequest::decode(String::from("GET /a HTTP/1.1\nHost: x\n\nbody"));
    assert_eq!(req.method, Method::Get);
    assert_eq!(req.version, Version::V1_1);
    assert_eq!(req.headers.get("Host"), Some(&String::from(" x")));
    assert_eq!(req.msg_body, String::from("body"));
}

#[test]
fn headers_insert_and_get() {
    let mut headers = Headers::new();
    assert!(headers.is_empty());
    assert_eq!(headers.get("Host"), None);
    headers.insert(String::from("Host"), String::from("one"));
    headers.insert(String::from("Accept"), String::from("*/*"));
    headers.insert(String::from("Host"), String::from("two"));
    assert_eq!(headers.len(), 2);
    assert_eq!(headers.get("Host"), Some(&String::from("two")));
    assert_eq!(headers.get("Accept"), Some(&String::from("*/*")));
    assert_eq!(headers.get("host"), None);
}

#[test]
fn process_req_line_full() {
    let (method, resource, version) = http::httprequest::process_req_line("GET /greeting HTTP/1.1");
    assert_eq!(method, Method::Get);
    assert_eq!(resource, Resource::Path(String::from("/greeting")));
    assert_eq!(version, Version::V1_1);
}
