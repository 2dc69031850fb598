use std::io::Read;

use flate2::read::{DeflateEncoder, GzEncoder};
use flate2::Compression;
use sentry_mirror::dsn::Dsn;
use sentry_mirror::http::{Headers, RequestUri};
use sentry_mirror::request::{
    choose_header, decode_body, first_line_len, forward_headers, make_outbound_request,
    replace_envelope_dsn, replace_public_key, rewrite_envelope_header, rewrite_path,
    splice_header, BodyError,
};
use sentry_mirror::text::{
    contains_ended, last_segment_start, names_match, replace_all, same_text, split_segments,
};

fn dsn(text: &str) -> Dsn {
    Dsn::from_string(text.to_string()).unwrap()
}

fn request_uri(text: &str) -> RequestUri {
    let parsed: hyper::Uri = text.parse().unwrap();
    RequestUri { path: parsed.path().to_string(), query: parsed.query().map(String::from) }
}

fn string_list_to_bytes(lines: Vec<&str>) -> Vec<u8> {
    let joined = lines.join("\n");

    joined.into_bytes()
}

#[test]
fn make_outbound_request_remove_proxy_headers() {
    let outbound = dsn("https://outbound@o123.ingest.sentry.io/6789");
    let uri = request_uri("https://o123.ingest.sentry.io/api/1/envelope/");

    let mut headers = Headers::new();
    headers.insert("Origin", "example.com");
    headers.insert("Content-Length", "42");
    headers.insert("Host", "sentry.example.com");
    headers.insert("X-Forwarded-For", "127.0.0.1");
    headers.insert("Content-Encoding", "gzip");

    let builder = make_outbound_request(&uri, &headers, &outbound);
    let req = builder.body(Vec::new());

    let headers = &req.headers;
    assert!(!headers.contains_key("Content-Encoding"));
    assert!(!headers.contains_key("Content-Length"));
    assert!(!headers.contains_key("Host"));
    assert!(!headers.contains_key("X-Forwared-For"));
    assert!(headers.contains_key("Origin"));
    assert!(!headers.contains_key("X-Forwarded-For"));
    assert_eq!(headers.get("Origin").unwrap(), "example.com");
    assert_eq!(headers.len(), 1);
}

#[test]
fn make_outbound_request_replace_sentry_auth_header() {
    let outbound = dsn("https://outbound@o123.ingest.sentry.io/6789");
    let uri = request_uri("https://o123.ingest.sentry.io/api/1/envelope/");

    let mut headers = Headers::new();
    headers.insert("Origin", "example.com");
    headers.insert("X-Sentry-Auth", "sentry_key=abcdef");

    let builder = make_outbound_request(&uri, &headers, &outbound);
    let req = builder.body(Vec::new());

    let header_val = req.headers.get("X-Sentry-Auth").unwrap();
    assert_eq!(header_val, "sentry_key=outbound");
    assert!(req.headers.contains_key("Origin"));
    assert_eq!(req.method, "POST");
}

#[test]
fn make_outbound_request_replace_authorization_header() {
    let outbound = dsn("https://outbound@o789.ingest.sentry.io/6789");
    let uri = request_uri("https://o123.ingest.sentry.io/api/1/envelope/");

    let mut headers = Headers::new();
    headers.insert("Content-Type", "application/json");
    headers.insert("Authorization", "sentry_version=7,sentry_key=abcdef");

    let builder = make_outbound_request(&uri, &headers, &outbound);
    let req = builder.body(Vec::new());

    let mut header_val = req.headers.get("Authorization").unwrap();
    assert_eq!(header_val, "sentry_version=7,sentry_key=outbound");

    header_val = req.headers.get("Content-Type").unwrap();
    assert_eq!(header_val, "application/json");
    assert_eq!(req.method, "POST");
}

#[test]
fn make_outbound_request_replace_query_key() {
    let outbound = dsn("https://outbound@o789.ingest.sentry.io/6789");
    let uri = request_uri(
        "https://o123.ingest.sentry.io/api/1/envelope/?sentry_key=abcdef&sentry_version=7",
    );

    let headers = Headers::new();
    let builder = make_outbound_request(&uri, &headers, &outbound);
    let req = builder.body(Vec::new());

    assert_eq!(
        req.uri,
        "https://o789.ingest.sentry.io/api/6789/envelope/?sentry_key=outbound&sentry_version=7"
    );
}

#[test]
fn make_outbound_request_replace_path_host_and_scheme() {
    let outbound = dsn("https://outbound@o789.ingest.sentry.io/6789");
    let uri = request_uri("http://o123.ingest.sentry.io/api/1/envelope/");

    let mut headers = Headers::new();
    headers.insert("Host", "o555.ingest.sentry.io");
    headers.insert("Content-Type", "application/json");
    headers.insert("Authorization", "sentry_version=7,sentry_key=abcdef");

    let builder = make_outbound_request(&uri, &headers, &outbound);
    let req = builder.body(Vec::new());

    assert_eq!(req.uri, "https://o789.ingest.sentry.io/api/6789/envelope/");
}

#[test]
fn test_replace_envelope_dsn_empty_body() {
    let outbound = dsn("https://outbound@o789.ingest.sentry.io/6789");
    let body: Vec<u8> = Vec::from("");
    let result = replace_envelope_dsn(&body, &outbound);

    assert!(result.is_none());
}

#[test]
fn test_replace_envelope_dsn_missing_key() {
    let outbound = dsn("https://outbound@o789.ingest.sentry.io/6789");
    let lines = vec![r#"{"key":"value"}"#, r#"{"second":"line"}"#];
    let body = string_list_to_bytes(lines);
    let result = replace_envelope_dsn(&body, &outbound);

    assert!(result.is_none());
}

#[test]
fn test_replace_envelope_dsn_only_first_line() {
    let outbound = dsn("https://outbound@o789.ingest.sentry.io/6789");
    let lines = vec![r#"{"dsn":"value"}"#, r#"{"second":"line", "dsn":"value"}"#];
    let body = string_list_to_bytes(lines);
    let result = replace_envelope_dsn(&body, &outbound);

    assert!(result.is_some());
    let new_body = result.unwrap();
    let expected_lines = vec![
        r#"{"dsn":"https://outbound@o789.ingest.sentry.io/6789"}"#,
        r#"{"second":"line", "dsn":"value"}"#,
    ];
    let expected = string_list_to_bytes(expected_lines);
    assert_eq!(new_body, expected);
}

#[test]
fn test_replace_envelope_dsn_present() {
    let outbound = dsn("https://outbound@o789.ingest.sentry.io/6789");
    let lines = vec![
        r#"{"dsn":"https://deadbeef@ingest.sentry.io/123","event_id":"5cb13bb8-eb7f-4a50-a8d8-9d309fd1049d"}"#,
        r#"{"message":"something failed"}"#,
    ];
    let body = string_list_to_bytes(lines);
    let result = replace_envelope_dsn(&body, &outbound);

    assert!(result.is_some());

    let new_body = result.unwrap();
    assert!(!new_body.is_empty());

    let expected_lines = vec![
        r#"{"dsn":"https://outbound@o789.ingest.sentry.io/6789","event_id":"5cb13bb8-eb7f-4a50-a8d8-9d309fd1049d"}"#,
        r#"{"message":"something failed"}"#,
    ];
    let expected = string_list_to_bytes(expected_lines);
    assert_eq!(new_body, expected);
}

#[test]
fn test_replace_envelope_dsn_trace_public_key() {
    let outbound = dsn("https://outbound@o789.ingest.sentry.io/6789");
    let lines = vec![
        r#"{"dsn":"http://abcdef@localhost:3000/12345","trace":{"public_key":"abcdef"}}"#,
        r#"{"second":"line", "dsn":"value"}"#,
    ];
    let body = string_list_to_bytes(lines);
    let result = replace_envelope_dsn(&body, &outbound);

    assert!(result.is_some());
    let new_body = result.unwrap();
    let expected_lines = vec![
        r#"{"dsn":"https://outbound@o789.ingest.sentry.io/6789","trace":{"public_key":"outbound"}}"#,
        r#"{"second":"line", "dsn":"value"}"#,
    ];
    let expected = string_list_to_bytes(expected_lines);
    assert_eq!(new_body, expected);
}

#[test]
fn test_decode_body_gzip() {
    let contents = b"some content to be compressed";
    let mut encoder = GzEncoder::new(&contents[..], Compression::fast());
    let mut buffer_out = Vec::new();
    encoder.read_to_end(&mut buffer_out).unwrap();

    let res = decode_body("gzip", &buffer_out);
    assert!(res.is_ok());
    let decoded = res.unwrap();

    assert_eq!(decoded.as_slice(), contents, "should get the same data back");
}

#[test]
fn test_decode_body_deflate() {
    let contents = b"some content to be compressed";
    let mut encoder = DeflateEncoder::new(&contents[..], Compression::fast());
    let mut buffer_out = Vec::new();
    encoder.read_to_end(&mut buffer_out).unwrap();

    let res = decode_body("deflate", &buffer_out);
    assert!(res.is_ok());
    let decoded = res.unwrap();

    assert_eq!(decoded.as_slice(), contents, "should get the same data back");
}

#[test]
fn test_decode_body_error() {
    let contents = "some content to be compressed";
    let res = decode_body("deflate", contents.as_bytes());
    assert!(res.is_err());
}

#[test]
fn decode_body_errors_by_kind() {
    let plain = b"some content to be compressed";
    assert!(matches!(decode_body("gzip", plain), Err(BodyError::CouldNotDecode(_))));
    assert!(matches!(decode_body("deflate", plain), Err(BodyError::CouldNotDecode(_))));
    assert!(matches!(decode_body("br", plain), Err(BodyError::UnsupportedCodec)));
    assert!(matches!(decode_body("GZIP", plain), Err(BodyError::UnsupportedCodec)));
    assert!(matches!(decode_body("gzip ", plain), Err(BodyError::UnsupportedCodec)));
    assert!(matches!(decode_body("", plain), Err(BodyError::UnsupportedCodec)));
    assert!(matches!(decode_body("gzip\u{e9}", plain), Err(BodyError::InvalidHeader)));
    assert!(matches!(decode_body("gz\u{7f}ip", plain), Err(BodyError::InvalidHeader)));
}

#[test]
fn decode_body_round_trip_of_many_bodies() {
    let mut contents: Vec<u8> = Vec::new();
    for round in 0..40u32 {
        let mut gz = Vec::new();
        GzEncoder::new(&contents[..], Compression::default()).read_to_end(&mut gz).unwrap();
        assert_eq!(decode_body("gzip", &gz).unwrap(), contents);
        let mut deflated = Vec::new();
        DeflateEncoder::new(&contents[..], Compression::best())
            .read_to_end(&mut deflated)
            .unwrap();
        assert_eq!(decode_body("deflate", &deflated).unwrap(), contents);
        if !contents.is_empty() {
            assert_ne!(gz, contents);
        }
        contents.push((round * 37 % 256) as u8);
        contents.push(b'\n');
        contents.push(0xff);
    }
}

#[test]
fn names_are_compared_without_case() {
    assert!(names_match("Content-Length", "content-length"));
    assert!(names_match("HOST", "host"));
    assert!(!names_match("Host", "Hostname"));
    assert!(!names_match("a-b", "a_b"));
    assert!(names_match("", ""));
    assert!(same_text("gzip", "gzip"));
    assert!(!same_text("gzip", "Gzip"));
    assert!(!same_text("gzip", "gzi"));
}

#[test]
fn header_map_lookups() {
    let mut headers = Headers::new();
    headers.append("Accept", "a");
    headers.append("accept", "b");
    headers.append("Origin", "o");
    assert_eq!(headers.len(), 3);
    assert_eq!(headers.get("ACCEPT").unwrap(), "a");
    headers.insert("aCCept", "c");
    assert_eq!(headers.len(), 2);
    assert_eq!(headers.get("accept").unwrap(), "c");
    assert_eq!(headers.entries[0].name, "Origin");
    assert_eq!(headers.entries[1].name, "aCCept");
    assert!(headers.get("missing").is_none());
    assert!(!headers.contains_key("missing"));
}

#[test]
fn forwarded_headers_keep_the_last_value() {
    let outbound = dsn("https://outbound@o123.ingest.sentry.io/6789");
    let mut headers = Headers::new();
    headers.append("X-Sentry-Auth", "sentry_key=aaa");
    headers.append("Accept", "one");
    headers.append("host", "h");
    headers.append("accept", "two");
    headers.append("x-sentry-auth", "sentry_version=7, sentry_key=bbb, sentry_key=ccc");
    let out = forward_headers(&headers, &outbound);
    assert_eq!(out.len(), 2);
    assert_eq!(out.get("Accept").unwrap(), "two");
    assert_eq!(
        out.get("X-Sentry-Auth").unwrap(),
        "sentry_version=7, sentry_key=outbound, sentry_key=outbound"
    );
    assert!(!out.contains_key("Host"));
}

#[test]
fn replace_public_key_rewrites_every_credential() {
    let outbound = dsn("https://outbound@o123.ingest.sentry.io/6789");
    assert_eq!(replace_public_key("sentry_key=abcdef", &outbound), "sentry_key=outbound");
    assert_eq!(replace_public_key("sentry_key=xyz", &outbound), "sentry_key=xyz");
    assert_eq!(replace_public_key("a=1&sentry_key=12ab&b=2", &outbound), "a=1&sentry_key=outbound&b=2");
    assert_eq!(
        replace_public_key("sentry_key=12ab&sentry_key=ff", &outbound),
        "sentry_key=outbound&sentry_key=outbound"
    );
    assert_eq!(replace_public_key("sentry_key=12abxy", &outbound), "sentry_key=outboundxy");
    assert_eq!(replace_public_key("nothing here", &outbound), "nothing here");
    assert_eq!(replace_public_key("", &outbound), "");
}

#[test]
fn replace_public_key_writes_the_key_as_it_is() {
    let mut outbound = dsn("https://outbound@o123.ingest.sentry.io/6789");
    outbound.public_key = "k$1$0${x}".to_string();
    assert_eq!(replace_public_key("sentry_key=abcdef;", &outbound), "sentry_key=k$1$0${x};");
}

#[test]
fn path_rewrite_puts_the_project_in() {
    assert_eq!(rewrite_path("/api/1/envelope/", "6789"), "/api/6789/envelope/");
    assert_eq!(rewrite_path("/api/123/store", "9"), "/api/9/store");
    assert_eq!(rewrite_path("//api//123//store//", "9"), "//api//9//store//");
    assert_eq!(rewrite_path("/api/123", "9"), "/api/123");
    assert_eq!(rewrite_path("/api/123/envelope/extra", "9"), "/api/123/envelope/extra");
    assert_eq!(rewrite_path("/v1/123/envelope", "9"), "/v1/123/envelope");
    assert_eq!(rewrite_path("/", "9"), "/");
    assert_eq!(rewrite_path("", "9"), "");
    assert_eq!(rewrite_path("/api/1/v1", "77"), "/api/77/v77");
    assert_eq!(rewrite_path("/api/api/x", "p"), "/p/p/x");
}

#[test]
fn segments_and_replacement() {
    let segments: Vec<String> =
        split_segments("/api//12/x/").into_iter().map(|s| s.into_iter().collect()).collect();
    assert_eq!(segments, vec!["api", "12", "x"]);
    assert!(split_segments("").is_empty());
    assert!(split_segments("///").is_empty());
    let from: Vec<char> = "aa".chars().collect();
    assert_eq!(replace_all("aaa", &from, "b"), "ba");
    assert_eq!(replace_all("aaaa", &from, "b"), "bb");
    assert_eq!(replace_all("xaay", &from, ""), "xy");
    assert_eq!(replace_all("a", &from, "b"), "a");
    assert_eq!(replace_all("", &from, "b"), "");
    let nothing: Vec<char> = Vec::new();
    assert_eq!(replace_all("abc", &nothing, "x"), "abc");
    let text: Vec<char> = "xaay".chars().collect();
    assert!(contains_ended(&text, &from));
    assert!(contains_ended(&text, &nothing));
    assert!(contains_ended(&text, &text));
    assert!(!contains_ended(&from, &text));
    assert!(!contains_ended(&text, &"ya".chars().collect()));
    assert!(!contains_ended(&text, &"x".chars().collect()));
    assert!(!contains_ended(&"xa1 xa".chars().collect(), &"x".chars().collect()));
    assert!(contains_ended(&"xa1 xag".chars().collect(), &"xa".chars().collect()));
    assert_eq!(last_segment_start(&"/a/bc".chars().collect()), 3);
    assert_eq!(last_segment_start(&"/a/".chars().collect()), 3);
    assert_eq!(last_segment_start(&"abc".chars().collect()), 0);
    assert_eq!(last_segment_start(&nothing), 0);
}

#[test]
fn envelope_header_rewrite() {
    let outbound = dsn("https://outbound@o789.ingest.sentry.io/6789");
    assert_eq!(rewrite_envelope_header("not json", &outbound), None);
    assert_eq!(rewrite_envelope_header("", &outbound), None);
    assert_eq!(rewrite_envelope_header(r#"{"a":1}"#, &outbound), None);
    assert_eq!(rewrite_envelope_header(r#"{"trace":{"id":1}}"#, &outbound), None);
    assert_eq!(rewrite_envelope_header(r#"["dsn"]"#, &outbound), None);
    assert_eq!(
        rewrite_envelope_header(r#"{"trace":{"public_key":"x"},"a":1}"#, &outbound),
        Some(r#"{"a":1,"trace":{"public_key":"outbound"}}"#.to_string())
    );
    assert_eq!(
        rewrite_envelope_header(r#"{"dsn":null}"#, &outbound),
        Some(r#"{"dsn":"https://outbound@o789.ingest.sentry.io/6789"}"#.to_string())
    );
}

#[test]
fn choose_header_by_what_was_found() {
    let line = || "line".to_string();
    assert_eq!(choose_header(None), None);
    assert_eq!(choose_header(Some((false, false, line()))), None);
    assert_eq!(choose_header(Some((true, false, line()))), Some(line()));
    assert_eq!(choose_header(Some((false, true, line()))), Some(line()));
    assert_eq!(choose_header(Some((true, true, line()))), Some(line()));
}

#[test]
fn envelope_header_is_parsed_once() {
    let outbound = dsn("https://outbound@o789.ingest.sentry.io/6789");
    assert_eq!(
        rewrite_envelope_header(
            r#"{"sent_at":0.1,"n":1.0e2,"trace":{"public_key":"x","sample_rate":0.25},"dsn":"d"}"#,
            &outbound
        ),
        Some(
            r#"{"dsn":"https://outbound@o789.ingest.sentry.io/6789","n":100.0,"sent_at":0.1,"trace":{"public_key":"outbound","sample_rate":0.25}}"#
                .to_string()
        )
    );
}

#[test]
fn splice_keeps_the_rest_of_the_envelope() {
    assert_eq!(first_line_len(b""), 0);
    assert_eq!(first_line_len(b"\nabc"), 0);
    assert_eq!(first_line_len(b"ab\ncd\n"), 2);
    assert_eq!(first_line_len(b"abc"), 3);
    assert_eq!(splice_header(b"old\nrest\nmore", "new!"), b"new!\nrest\nmore".to_vec());
    assert_eq!(splice_header(b"old\n", "h"), b"h\n".to_vec());
    assert_eq!(splice_header(b"\n\xff\x00\n", "h\u{e9}"), b"h\xc3\xa9\n\xff\x00\n".to_vec());
    assert_eq!(splice_header(b"old", "new"), b"new\n".to_vec());
    assert_eq!(splice_header(b"", "new"), b"new\n".to_vec());
}

#[test]
fn envelope_of_one_line_is_rewritten_too() {
    let outbound = dsn("https://outbound@o789.ingest.sentry.io/6789");
    assert_eq!(
        replace_envelope_dsn(br#"{"dsn":"value"}"#, &outbound),
        Some(b"{\"dsn\":\"https://outbound@o789.ingest.sentry.io/6789\"}\n".to_vec())
    );
    assert!(replace_envelope_dsn(br#"{"key":"value"}"#, &outbound).is_none());
    assert!(replace_envelope_dsn(b"\xff\xfe\n{}", &outbound).is_none());
    let binary = b"{\"dsn\":\"v\"}\n\xff\x00\xfe\n\n";
    let expected = b"{\"dsn\":\"https://outbound@o789.ingest.sentry.io/6789\"}\n\xff\x00\xfe\n\n";
    assert_eq!(replace_envelope_dsn(binary, &outbound), Some(expected.to_vec()));
}
