use multi_proxy::http::{http_addr, is_connect, sniff_http, HttpRequest};

#[test]
fn plain_get_uses_host_header_and_default_port() {
    let req = b"GET / HTTP/1.1\r\nHost: example.test\r\n\r\n";
    assert_eq!(http_addr(req), Some(b"example.test:80".to_vec()));
    assert_eq!(
        sniff_http(req),
        Some(HttpRequest { is_connect: false, target: b"example.test:80".to_vec() })
    );
}

#[test]
fn connect_to_bracketed_ipv6_keeps_port() {
    let req = b"CONNECT [::1]:443 HTTP/1.1\r\nHost: [::1]:443\r\n\r\n";
    assert_eq!(
        sniff_http(req),
        Some(HttpRequest { is_connect: true, target: b"[::1]:443".to_vec() })
    );
}

#[test]
fn bracketed_ipv6_without_port_gets_default() {
    assert_eq!(http_addr(b"GET / HTTP/1.1\r\nHost: [::1]\r\n\r\n"), Some(b"[::1]:80".to_vec()));
}

#[test]
fn host_header_is_case_insensitive() {
    assert_eq!(http_addr(b"GET / HTTP/1.1\r\nhOsT: a.test:8080\r\n"), Some(b"a.test:8080".to_vec()));
}

#[test]
fn falls_back_to_request_target() {
    assert_eq!(http_addr(b"CONNECT b.test:443 HTTP/1.1\r\n\r\n"), Some(b"b.test:443".to_vec()));
    assert_eq!(http_addr(b"GET x.test HTTP/1.1\r\nHost:\r\n"), Some(b"x.test:80".to_vec()));
}

#[test]
fn missing_target_is_none() {
    assert_eq!(http_addr(b"GET"), None);
    assert_eq!(http_addr(b"   \r\n "), None);
    assert_eq!(sniff_http(b"GET\r\n"), None);
}

#[test]
fn method_match_ignores_case() {
    assert!(is_connect(b"connect a:1 HTTP/1.1"));
    assert!(!is_connect(b"GET a:1 HTTP/1.1"));
    assert!(!is_connect(b"CONNECTX a:1"));
}

#[test]
fn whitespace_between_tokens_does_not_matter() {
    let a = sniff_http(b"GET / HTTP/1.1\r\nHost: example.test\r\n\r\n");
    let b = sniff_http(b"  GET\t/   HTTP/1.1\nHost:\x0c\x0cexample.test");
    let c = sniff_http(b"GET / HTTP/1.1 Host: example.test");
    assert_eq!(a, b);
    assert_eq!(a, c);
    let d = sniff_http(b"CONNECT\t\t[::1]:443\r\n\r\nHOST:   [::1]:443");
    let e = sniff_http(b"CONNECT [::1]:443 HOST: [::1]:443");
    assert_eq!(d, e);
}
