use devtools::codec::{base64_decode, base64_encode, url_decode, url_encode};
use devtools::dns::{dns_lines, Record, RecordKind};
use devtools::format::json_format;
use devtools::http::{parse_method, plan_request, Method, Request};
use devtools::pattern::{present_groups, regex_captures, regex_is_match};
use devtools::random::{gen_passwords, gen_uuid_v4, gen_uuid_v7};

#[test]
fn base64_round() {
    assert_eq!(base64_encode("hello"), "aGVsbG8=");
    assert_eq!(base64_encode(""), "");
    assert_eq!(base64_decode("aGVsbG8="), "hello");
    let e = base64_decode("!!");
    assert!(!e.is_empty());
    assert_ne!(e, "!!");
}

#[test]
fn url_codec() {
    assert_eq!(url_encode("a b&c~d"), "a%20b%26c~d");
    assert_eq!(url_encode("é"), "%C3%A9");
    assert_eq!(url_decode("a%20b%26c"), "a b&c");
    assert_eq!(url_decode("%C3%A9"), "é");
}

#[test]
fn http_methods() {
    assert_eq!(parse_method("GET"), Some(Method::Get));
    assert_eq!(parse_method("head"), Some(Method::Head));
    assert_eq!(parse_method("Post"), Some(Method::Post));
    assert_eq!(parse_method("pUT"), Some(Method::Put));
    assert_eq!(parse_method("patch"), Some(Method::Patch));
    assert_eq!(parse_method("DELETE"), Some(Method::Delete));
    assert_eq!(parse_method("options"), Some(Method::Options));
    assert_eq!(parse_method("fetch"), None);
    assert_eq!(parse_method(""), None);
}

#[test]
fn regex_tools() {
    assert_eq!(regex_is_match("a+b", "xaab"), Ok(true));
    assert_eq!(regex_is_match("^a+b$", "xaab"), Ok(false));
    assert!(regex_is_match("(", "x").is_err());
    assert_eq!(regex_captures("(a)(x)?(b)", "zab"), Ok(vec!["ab".to_string(), "a".to_string(), "b".to_string()]));
    assert_eq!(regex_captures("q", "zab"), Ok(vec![]));
    assert!(regex_captures("[", "x").is_err());
    assert_eq!(present_groups(vec![None, Some("x".to_string()), None]), vec!["x".to_string()]);
}

#[test]
fn json_pretty() {
    assert_eq!(json_format("{\"a\":[1,2]}"), Ok("{\n  \"a\": [\n    1,\n    2\n  ]\n}".to_string()));
    assert!(json_format("{").is_err());
    assert_eq!(json_format("[]"), Ok("[]".to_string()));
}

#[test]
fn uuids() {
    let a = gen_uuid_v4();
    assert_eq!(a.len(), 36);
    assert_eq!(a.matches('-').count(), 4);
    assert!(a.chars().all(|c| c == '-' || c.is_ascii_digit() || ('a'..='f').contains(&c)));
    assert!("89ab".contains(&a[19..20]));
    assert_eq!(&a[14..15], "4");
    let b = gen_uuid_v7();
    assert_eq!(b.len(), 36);
    assert_eq!(&b[14..15], "7");
}

#[test]
fn passwords() {
    let v = gen_passwords(3, 8, true, true, false, false, false).unwrap();
    assert_eq!(v.len(), 3);
    for p in &v {
        assert_eq!(p.chars().count(), 8);
        assert!(p.chars().all(|c| c.is_ascii_digit() || c.is_ascii_lowercase()));
    }
    let v = gen_passwords(5, 6, false, false, false, true, false).unwrap();
    for p in &v {
        assert!(p.chars().all(|c| c.is_ascii_punctuation()));
    }
    let v = gen_passwords(2, 4, true, true, true, true, true).unwrap();
    for p in &v {
        assert!(p.chars().any(|c| c.is_ascii_digit()));
        assert!(p.chars().any(|c| c.is_ascii_uppercase()));
    }
    assert!(gen_passwords(1, 0, true, false, false, false, false).is_err());
    assert!(gen_passwords(1, 5, false, false, false, false, false).is_err());
    assert!(gen_passwords(1, 3, true, true, true, true, true).is_err());
    assert_eq!(gen_passwords(0, 5, true, false, false, false, false), Ok(vec![]));
}

fn request(method: &str, url: &str, resolve: &str, body: &str, flags: bool) -> Request {
    Request {
        url: url.to_string(),
        method: method.to_string(),
        headers: std::collections::HashMap::new(),
        body: body.to_string(),
        use_proxy: flags,
        use_redirect: flags,
        use_resolve: resolve.to_string(),
        use_certs_check: flags,
    }
}

#[test]
fn request_plans() {
    let p = plan_request(&request("get", "http://example.com/x", "", "", true)).unwrap();
    assert!(!p.no_proxy && !p.no_redirect && !p.accept_invalid_certs);
    assert_eq!(p.method, Method::Get);
    assert!(p.resolve.is_none());
    assert!(!p.send_body);
    let p = plan_request(&request("POST", "http://example.com:8080/", "127.0.0.1:8080", "data", false)).unwrap();
    assert!(p.no_proxy && p.no_redirect && p.accept_invalid_certs);
    assert_eq!(p.method, Method::Post);
    assert_eq!(p.resolve, Some(("example.com".to_string(), "127.0.0.1:8080".to_string())));
    assert!(p.send_body);
    assert_eq!(plan_request(&request("fetch", "http://a/", "", "", true)).err(), Some("unknown http method".to_string()));
    assert!(plan_request(&request("get", "not a url", "1.2.3.4:80", "", true)).is_err());
    assert_eq!(plan_request(&request("get", "mailto:a@b", "1.2.3.4:80", "", true)).err(), Some("no host".to_string()));
}

#[test]
fn dns_record_lines() {
    let rs = vec![
        Record { kind: RecordKind::Cname, name: "www.example.com.".to_string(), data: Some("example.com.".to_string()) },
        Record { kind: RecordKind::Other, name: "x.".to_string(), data: Some("y".to_string()) },
        Record { kind: RecordKind::A, name: "example.com.".to_string(), data: Some("93.184.216.34".to_string()) },
        Record { kind: RecordKind::Aaaa, name: "example.com.".to_string(), data: None },
        Record { kind: RecordKind::Aaaa, name: "example.com.".to_string(), data: Some("::1".to_string()) },
    ];
    assert_eq!(dns_lines(&rs), vec![
        "CNAME\twww.example.com.\t--> example.com.".to_string(),
        "A\texample.com.\t--> 93.184.216.34".to_string(),
        "AAAA\texample.com.\t--> ::1".to_string(),
    ]);
}
