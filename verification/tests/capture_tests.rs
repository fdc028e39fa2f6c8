use flate2::write::{GzEncoder, ZlibEncoder};
use flate2::Compression;
use std::io::Write;
use swagex::capture::{
    capture_body, connect_reply_ended, connect_reply_verdict, connect_request, decode_http_body,
    is_game_host, route_request, should_capture_response, ConnectRefusal, RequestRoute,
};

#[test]
fn only_intercepts_the_game_domain() {
    assert!(is_game_host("summonerswar-eu-lb.qpyou.cn"));
    assert!(is_game_host("qpyou.cn"));
    assert!(!is_game_host("example.com"));
    assert!(!is_game_host("qpyou.cn.example.com"));
}

#[test]
fn does_not_intercept_a_name_that_only_ends_like_the_domain() {
    assert!(!is_game_host("notqpyou.cn"));
    assert!(!is_game_host(""));
    assert!(is_game_host(".qpyou.cn"));
}

fn gzip(data: &[u8]) -> Vec<u8> {
    let mut encoder = GzEncoder::new(Vec::new(), Compression::default());
    encoder.write_all(data).unwrap();
    encoder.finish().unwrap()
}

fn zlib(data: &[u8]) -> Vec<u8> {
    let mut encoder = ZlibEncoder::new(Vec::new(), Compression::default());
    encoder.write_all(data).unwrap();
    encoder.finish().unwrap()
}

#[test]
fn decodes_compressed_bodies() {
    let body = b"hello body";
    assert_eq!(decode_http_body(Some("gzip"), &gzip(body)), Some(body.to_vec()));
    assert_eq!(decode_http_body(Some(" GZip "), &gzip(body)), Some(body.to_vec()));
    assert_eq!(decode_http_body(Some("x-gzip"), &gzip(body)), Some(body.to_vec()));
    assert_eq!(decode_http_body(Some("deflate"), &zlib(body)), Some(body.to_vec()));
    assert_eq!(decode_http_body(Some("identity"), body), Some(body.to_vec()));
    assert_eq!(decode_http_body(Some("br"), body), None);
    assert_eq!(decode_http_body(None, body), None);
    assert_eq!(decode_http_body(Some("gzip"), body), None);
}

#[test]
fn captures_the_raw_body_when_it_cannot_be_decoded() {
    let body = b"plain";
    assert_eq!(capture_body(None, body), body.to_vec());
    assert_eq!(capture_body(Some("gzip"), &gzip(body)), body.to_vec());
    assert_eq!(capture_body(Some("gzip"), body), body.to_vec());
}

#[test]
fn captures_only_enabled_profile_requests() {
    assert!(should_capture_response(true, true));
    assert!(!should_capture_response(false, true));
    assert!(!should_capture_response(true, false));
}

#[test]
fn routes_certificate_downloads() {
    assert_eq!(route_request(true, "/SwagEx.mobileconfig"), RequestRoute::CertificateProfile);
    assert_eq!(route_request(true, "/certificate"), RequestRoute::CertificateProfile);
    assert_eq!(route_request(true, "/SwagEx-CA.cer"), RequestRoute::CertificateDer);
    assert_eq!(
        route_request(false, "/SwagEx.mobileconfig"),
        RequestRoute::Forward { profile_request: false }
    );
    assert_eq!(route_request(true, "/other"), RequestRoute::Forward { profile_request: false });
    assert_eq!(
        route_request(false, "/api/gateway_c2.php"),
        RequestRoute::Forward { profile_request: true }
    );
}

#[test]
fn asks_the_upstream_proxy_for_a_tunnel() {
    assert_eq!(
        connect_request("summonerswar-eu-lb.qpyou.cn"),
        "CONNECT summonerswar-eu-lb.qpyou.cn:443 HTTP/1.1\r\nHost: summonerswar-eu-lb.qpyou.cn:443\r\n\r\n"
    );
}

#[test]
fn judges_the_tunnel_reply() {
    assert!(!connect_reply_ended(&b"HTTP/1.1 200 OK\r\n".to_vec()));
    assert!(connect_reply_ended(&b"HTTP/1.1 200 OK\r\n\r\n".to_vec()));
    assert_eq!(connect_reply_verdict(&b"HTTP/1.1 200 Connection established\r\n\r\n".to_vec()), Ok(()));
    assert_eq!(connect_reply_verdict(&b"HTTP/1.1 200".to_vec()), Err(ConnectRefusal::Incomplete));
    assert_eq!(
        connect_reply_verdict(&b"HTTP/1.1 407 Proxy Authentication Required\r\n\r\n".to_vec()),
        Err(ConnectRefusal::Refused("HTTP/1.1 407 Proxy Authentication Required".to_string()))
    );
    assert_eq!(
        connect_reply_verdict(&b"HTTP/1.1 +204 x\r\n\r\n".to_vec()),
        Ok(())
    );
    assert_eq!(
        connect_reply_verdict(&b"HTTP/1.1 70000 x\r\n\r\n".to_vec()),
        Err(ConnectRefusal::Refused("HTTP/1.1 70000 x".to_string()))
    );
    assert_eq!(connect_reply_verdict(&vec![0xff, b'\r', b'\n', b'\r', b'\n']), Err(ConnectRefusal::NotText));
}
