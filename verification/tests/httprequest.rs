use http::HttpRequest;
use http::Method;
use http::Resource;
use http::Version;

#[test]
fn test_method_into() {
    let m: Method = "GET".into();
    assert_eq!(m, Method::Get);
}

#[test]
fn test_version_into() {
    let v: Version = "HTTP/1.1".into();
    assert_eq!(v, Version::V1_1);
}

#[test]
fn test_process_req_line() {
    let s = String::from(
        "GET /greeting HTTP/1.1\r\nHost: localhost\r\nUser-Agent: curl/7.64.1\r\nAccept: */*\r\n\r\n",
    );
    let req: HttpRequest = HttpRequest::decode(s);
    assert_eq!(req.method, Method::Get);
    assert_eq!(req.version, Version::V1_1);
    assert_eq!(req.resource, Resource::Path(String::from("/greeting")));
    assert_eq!(req.headers.len(), 3);
    assert_eq!(req.headers.get("Host"), Some(&String::from(" localhost")));
    assert_eq!(req.headers.get("Accept"), Some(&String::from(" */*")));
    assert_eq!(
        req.headers.get("User-Agent"),
        Some(&String::from(" curl/7.64.1"))
    );
    assert_eq!(req.msg_body, String::new());
}
