use ggg::download::attempt::encode_basic_auth;
use ggg::download::http_client::{
    build_headers, check_auth_required, decide_transfer, parse_disposition,
    parse_response_headers, range_header, DownloadInfo, HeaderError, ProgressMeter,
    ProgressReport, ResponseHeader, TransferStep,
};
use ggg::download::http_errors::{HttpErrorCategory, HttpErrorInfo};
use ggg::text_map::TextMap;

fn headers(pairs: &[(&str, &str)]) -> Vec<ResponseHeader> {
    pairs
        .iter()
        .map(|(n, v)| ResponseHeader { name: n.to_string(), value: Some(v.to_string()) })
        .collect()
}

#[test]
fn test_parse_response_headers_all_fields() {
    let headers = headers(&[
        ("content-length", "2048"),
        ("accept-ranges", "bytes"),
        ("etag", "\"xyz789\""),
        ("last-modified", "Thu, 22 Oct 2015 08:30:00 GMT"),
        ("content-disposition", "attachment; filename=\"test.zip\""),
        ("content-type", "application/zip"),
        ("x-custom-header", "custom-value"),
    ]);

    let parsed = parse_response_headers(&headers);

    assert_eq!(parsed.size, Some(2048));
    assert!(parsed.resume_supported);
    assert_eq!(parsed.etag, Some("\"xyz789\"".to_string()));
    assert_eq!(parsed.last_modified, Some("Thu, 22 Oct 2015 08:30:00 GMT".to_string()));
    assert_eq!(parsed.filename, Some("test.zip".to_string()));
    assert_eq!(parsed.content_type, Some("application/zip".to_string()));
    assert_eq!(parsed.all_headers.len(), 6);
    assert_eq!(parsed.all_headers.get("accept-ranges"), Some(&"bytes".to_string()));
    assert!(parsed.all_headers.get("x-custom-header").is_none());
}

#[test]
fn test_parse_response_headers_minimal() {
    let parsed = parse_response_headers(&Vec::new());

    assert_eq!(parsed.size, None);
    assert!(!parsed.resume_supported);
    assert_eq!(parsed.etag, None);
    assert_eq!(parsed.last_modified, None);
    assert_eq!(parsed.filename, None);
    assert_eq!(parsed.content_type, None);
    assert_eq!(parsed.all_headers.len(), 0);
}

#[test]
fn test_parse_response_headers_resume_not_supported() {
    let parsed = parse_response_headers(&headers(&[("accept-ranges", "none")]));
    assert!(!parsed.resume_supported);
}

#[test]
fn test_parse_response_headers_content_disposition_parsing() {
    let parsed = parse_response_headers(&headers(&[(
        "content-disposition",
        "attachment; filename=\"document.pdf\"",
    )]));
    assert_eq!(parsed.filename, Some("document.pdf".to_string()));
}

#[test]
fn test_parse_response_headers_invalid_content_length() {
    let parsed = parse_response_headers(&headers(&[("content-length", "invalid")]));
    assert_eq!(parsed.size, None);
}

#[test]
fn dispositions_without_a_name_have_none() {
    assert_eq!(parse_disposition("inline"), None);
    assert_eq!(parse_disposition("attachment; filename=a.b"), Some("a.b".to_string()));
}

#[test]
fn credentials_are_wanted_with_their_realm() {
    let hs = headers(&[("www-authenticate", "Basic realm=\"Files\"")]);
    assert_eq!(check_auth_required(401, &hs), (true, Some("Files".to_string())));
    assert_eq!(check_auth_required(200, &hs), (false, None));
    assert!(check_auth_required(407, &Vec::new()).0);
    let info = DownloadInfo::from_response(401, &hs, None);
    assert!(info.auth_required);
    assert_eq!(info.auth_realm, Some("Files".to_string()));
}

#[test]
fn request_headers_are_put_together() {
    let mut custom = TextMap::new();
    custom.insert("X-Token".to_string(), "t".to_string());
    let built =
        build_headers(&Some("UA".to_string()), &Some("https://r/".to_string()), &custom).unwrap();
    assert_eq!(built.get("user-agent"), Some(&"UA".to_string()));
    assert_eq!(built.get("referer"), Some(&"https://r/".to_string()));
    assert_eq!(built.get("x-token"), Some(&"t".to_string()));
}

#[test]
fn bad_headers_are_refused() {
    let mut bad_name = TextMap::new();
    bad_name.insert("no spaces".to_string(), "x".to_string());
    match build_headers(&None, &None, &bad_name) {
        Err(e) => assert_eq!(e, HeaderError::InvalidName),
        Ok(_) => panic!("a name with a space was taken"),
    }
    let mut bad_value = TextMap::new();
    bad_value.insert("x".to_string(), "line\nfeed".to_string());
    match build_headers(&None, &None, &bad_value) {
        Err(e) => assert_eq!(e, HeaderError::InvalidValue),
        Ok(_) => panic!("a value with a line feed was taken"),
    }
}

#[test]
fn ranges_are_open_at_the_end() {
    assert_eq!(range_header(500), "bytes=500-");
}

#[test]
fn a_refused_range_restarts_once() {
    assert!(matches!(decide_transfer(Some(5), 416, &Vec::new()), TransferStep::Restart));
    assert!(matches!(decide_transfer(None, 416, &Vec::new()), TransferStep::Fail(_)));
    match decide_transfer(Some(5), 206, &Vec::new()) {
        TransferStep::Receive { append, received, .. } => {
            assert!(append);
            assert_eq!(received, 5);
        }
        _ => panic!("a partial response is received"),
    }
    match decide_transfer(None, 200, &Vec::new()) {
        TransferStep::Receive { append, received, .. } => {
            assert!(!append);
            assert_eq!(received, 0);
        }
        _ => panic!("a whole response is received"),
    }
    assert!(matches!(decide_transfer(None, 404, &Vec::new()), TransferStep::Fail(_)));
}

#[test]
fn progress_is_reported_by_size_and_by_time() {
    let total = Some(2_000_000);
    let mut m = ProgressMeter::new(0, total, 0);
    assert_eq!(m.count_chunk(1_048_575, 10 * 1_000_000), None);
    assert_eq!(
        m.count_chunk(1, 20 * 1_000_000),
        Some(ProgressReport { received: 1_048_576, total })
    );
    assert_eq!(m.count_chunk(1, 519 * 1_000_000), None);
    assert_eq!(
        m.count_chunk(1, 520 * 1_000_000),
        Some(ProgressReport { received: 1_048_578, total })
    );
    assert_eq!(m.count_chunk(5, 521 * 1_000_000), None);
    assert_eq!(m.finish(), ProgressReport { received: 1_048_583, total });
}

#[test]
fn failures_are_explained() {
    let e = HttpErrorInfo::from_status(404);
    assert_eq!(e.status_code, Some(404));
    assert_eq!(e.category, HttpErrorCategory::Client);
    assert!(!e.is_retryable);
    let e = HttpErrorInfo::from_status(503);
    assert_eq!(e.category, HttpErrorCategory::Server);
    assert!(e.is_retryable);
    let e = HttpErrorInfo::from_status(429);
    assert!(e.is_retryable);
    let n = HttpErrorInfo::network_error("refused");
    assert_eq!(n.status_code, None);
    assert_eq!(n.format(), "Network Error");
    assert_eq!(n.suggestion, "Connection failed: refused. Check network connectivity.");
    assert!(n.is_retryable);
}

#[test]
fn credentials_are_encoded() {
    assert_eq!(encode_basic_auth("user", "pass"), "Basic dXNlcjpwYXNz");
}

#[test]
fn test_get_info_parses_content_length() {
    let headers = headers(&[("Content-Length", "1024"), ("Accept-Ranges", "bytes")]);
    let info = DownloadInfo::from_response(200, &headers, None);
    assert_eq!(info.size, Some(1024));
}

#[test]
fn test_get_info_detects_resume_support() {
    let headers = headers(&[("Content-Length", "2048"), ("Accept-Ranges", "bytes")]);
    let info = DownloadInfo::from_response(200, &headers, None);
    assert!(info.resume_supported);
}

#[test]
fn test_get_info_extracts_etag() {
    let headers = headers(&[("Content-Length", "512"), ("ETag", "\"abc123\"")]);
    let info = DownloadInfo::from_response(200, &headers, None);
    assert_eq!(info.etag, Some("\"abc123\"".to_string()));
}

#[test]
fn test_get_info_extracts_last_modified() {
    let headers = headers(&[
        ("Content-Length", "256"),
        ("Last-Modified", "Wed, 21 Oct 2015 07:28:00 GMT"),
    ]);
    let info = DownloadInfo::from_response(200, &headers, None);
    assert_eq!(info.last_modified, Some("Wed, 21 Oct 2015 07:28:00 GMT".to_string()));
}
