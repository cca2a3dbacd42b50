use toxo::{HttpMethod, HttpVersion, LogEntry, ParseConfig, ParserServices};

fn push_key(b: &mut Vec<u8>, s: &str) {
    b.push(0x40 + s.len() as u8);
    b.extend_from_slice(s.as_bytes());
}

/// A smallest-possible location database: one search-tree node whose
/// records both point nowhere, so every lookup is a miss.
fn tiny_mmdb() -> Vec<u8> {
    let mut b: Vec<u8> = vec![0, 0, 1, 0, 0, 1];
    b.extend_from_slice(&[0u8; 16]);
    b.extend_from_slice(b"\xab\xcd\xefMaxMind.com");
    b.push(0xE9);
    push_key(&mut b, "binary_format_major_version");
    b.extend_from_slice(&[0xA1, 0x02]);
    push_key(&mut b, "binary_format_minor_version");
    b.push(0xA0);
    push_key(&mut b, "build_epoch");
    b.extend_from_slice(&[0x00, 0x02]);
    push_key(&mut b, "database_type");
    push_key(&mut b, "Test");
    push_key(&mut b, "description");
    b.push(0xE0);
    push_key(&mut b, "ip_version");
    b.extend_from_slice(&[0xA1, 0x06]);
    push_key(&mut b, "languages");
    b.extend_from_slice(&[0x00, 0x04]);
    push_key(&mut b, "node_count");
    b.extend_from_slice(&[0xC1, 0x01]);
    push_key(&mut b, "record_size");
    b.extend_from_slice(&[0xA1, 0x18]);
    b
}

const REGEXES_YAML: &str = "user_agent_parsers:\n  - regex: '(TestBrowser)/(\\d+)\\.(\\d+)'\nos_parsers: []\ndevice_parsers:\n  - regex: 'TestDevice'\n    device_replacement: 'TestDevice'\n    brand_replacement: 'TestBrand'\n    model_replacement: 'TestModel'\n";

fn services() -> ParserServices<'static> {
    ParserServices::new(REGEXES_YAML, tiny_mmdb()).unwrap()
}

fn config(watermark: i64, origin: &str) -> ParseConfig {
    ParseConfig::new(watermark, origin).unwrap()
}

fn example_micros() -> i64 {
    chrono::DateTime::parse_from_str("10/Oct/2023:13:55:36 +0000", "%d/%b/%Y:%H:%M:%S %z")
        .unwrap()
        .timestamp_micros()
}

const EXAMPLE_LINE: &str = "127.0.0.1 - - [10/Oct/2023:13:55:36 +0000] \"GET /a//b.html?x=1 HTTP/1.1\" 200 512 \"-\" \"Mozlila/5.0\"";

#[test]
fn example_line_parses_fully() {
    let mut s = services();
    let c = config(0, "https://example.com");
    let entry = LogEntry::parse(EXAMPLE_LINE.to_string(), &mut s, &c).unwrap();
    assert_eq!(entry.line, EXAMPLE_LINE);
    assert_eq!(entry.ip, "127.0.0.1");
    assert_eq!(entry.identity, None);
    assert_eq!(entry.user, None);
    assert_eq!(entry.timestamp, example_micros());
    assert_eq!(entry.method, HttpMethod::GET);
    assert_eq!(entry.path, "/a/b.html");
    assert_eq!(entry.extension, Some("html".to_string()));
    assert_eq!(entry.query, Some("x=1".to_string()));
    let pq = entry.parsed_query.as_ref().unwrap();
    assert_eq!(pq.len(), 1);
    assert_eq!(pq.get("x"), Some(&"1".to_string()));
    assert_eq!(entry.http_version, HttpVersion::HTTP11);
    assert_eq!(entry.status_code, 200);
    assert_eq!(entry.size, 512);
    assert_eq!(entry.referer, None);
    assert_eq!(entry.referer_origin, None);
    assert_eq!(entry.referer_path, None);
    assert_eq!(entry.referer_query, None);
    assert!(entry.referer_parsed_query.is_none());
    assert_eq!(entry.user_agent, Some("Mozlila/5.0".to_string()));
    assert_eq!(entry.device, Some("Spider".to_string()));
    assert_eq!(entry.country, None);
    assert_eq!(entry.continent, None);
    assert_eq!(entry.asn, None);
    assert_eq!(entry.as_name, None);
    assert_eq!(entry.as_domain, None);
}

#[test]
fn watermark_at_timestamp_filters() {
    let mut s = services();
    let c = config(example_micros(), "https://example.com");
    let err = LogEntry::parse(EXAMPLE_LINE.to_string(), &mut s, &c).unwrap_err();
    assert!(err.is_filtered());
}

#[test]
fn watermark_just_below_accepts() {
    let mut s = services();
    let c = config(example_micros() - 1, "https://example.com");
    assert!(LogEntry::parse(EXAMPLE_LINE.to_string(), &mut s, &c).is_ok());
}

#[test]
fn foreign_host_is_rejected() {
    let mut s = services();
    let c = config(0, "https://good.example");
    let line = "127.0.0.1 - - [10/Oct/2023:13:55:36 +0000] \"GET http://evil.example HTTP/1.1\" 200 512 \"-\" \"x\"";
    let err = LogEntry::parse(line.to_string(), &mut s, &c).unwrap_err();
    assert!(!err.is_filtered());
    assert_eq!(
        err.display_string(),
        format!("Invalid entry: {} (Path has a different host)", line)
    );
}

#[test]
fn parsing_twice_is_deterministic() {
    let mut s = services();
    let c = config(0, "https://example.com");
    let a = LogEntry::parse(EXAMPLE_LINE.to_string(), &mut s, &c).unwrap();
    let b = LogEntry::parse(EXAMPLE_LINE.to_string(), &mut s, &c).unwrap();
    assert_eq!(a.ip, b.ip);
    assert_eq!(a.identity, b.identity);
    assert_eq!(a.user, b.user);
    assert_eq!(a.timestamp, b.timestamp);
    assert_eq!(a.method, b.method);
    assert_eq!(a.path, b.path);
    assert_eq!(a.extension, b.extension);
    assert_eq!(a.query, b.query);
    assert_eq!(a.http_version, b.http_version);
    assert_eq!(a.status_code, b.status_code);
    assert_eq!(a.size, b.size);
    assert_eq!(a.referer, b.referer);
    assert_eq!(a.user_agent, b.user_agent);
    assert_eq!(a.browser, b.browser);
    assert_eq!(a.browser_major, b.browser_major);
    assert_eq!(a.os, b.os);
    assert_eq!(a.device, b.device);
    assert_eq!(a.brand, b.brand);
    assert_eq!(a.model, b.model);
    assert_eq!(a.country, b.country);
    assert_eq!(a.asn, b.asn);
}

#[test]
fn malformed_referer_degrades_to_absent() {
    let mut s = services();
    let c = config(0, "https://example.com");
    let line = "10.0.0.1 - alice [10/Oct/2023:13:55:36 +0000] \"GET /index.html HTTP/1.1\" 200 7 \"not a url\" \"TestBrowser/1.2\"";
    let entry = LogEntry::parse(line.to_string(), &mut s, &c).unwrap();
    assert_eq!(entry.user, Some("alice".to_string()));
    assert_eq!(entry.referer, None);
    assert_eq!(entry.referer_origin, None);
    assert_eq!(entry.referer_path, None);
    assert_eq!(entry.referer_query, None);
    assert!(entry.referer_parsed_query.is_none());
}

#[test]
fn wellformed_referer_is_decomposed() {
    let mut s = services();
    let c = config(0, "https://example.com");
    let line = "10.0.0.1 - - [10/Oct/2023:13:55:36 +0000] \"GET / HTTP/2.0\" 200 7 \"https://other.example/p/q.html?a=1&b=2\" \"\"";
    let entry = LogEntry::parse(line.to_string(), &mut s, &c).unwrap();
    assert_eq!(
        entry.referer,
        Some("https://other.example/p/q.html?a=1&b=2".to_string())
    );
    assert_eq!(entry.referer_origin, Some("https://other.example".to_string()));
    assert_eq!(entry.referer_path, Some("/p/q.html".to_string()));
    assert_eq!(entry.referer_query, Some("a=1&b=2".to_string()));
    let rq = entry.referer_parsed_query.as_ref().unwrap();
    assert_eq!(rq.get("a"), Some(&"1".to_string()));
    assert_eq!(rq.get("b"), Some(&"2".to_string()));
    assert_eq!(entry.user_agent, None);
    assert_eq!(entry.browser, None);
    assert_eq!(entry.device, None);
}

#[test]
fn agent_cache_returns_equal_values_per_string() {
    let mut s = services();
    let ua = "TestBrowser/1.2 on TestDevice";
    let a = s.get_agent(ua);
    let b = s.get_agent(ua);
    assert_eq!(a.browser, Some("TestBrowser".to_string()));
    assert_eq!(a.browser_major, Some(1));
    assert_eq!(a.browser_minor, Some(2));
    assert_eq!(a.device, Some("TestDevice".to_string()));
    assert_eq!(a.brand, Some("TestBrand".to_string()));
    assert_eq!(a.model, Some("TestModel".to_string()));
    assert_eq!(a.browser, b.browser);
    assert_eq!(a.browser_major, b.browser_major);
    assert_eq!(a.browser_minor, b.browser_minor);
    assert_eq!(a.device, b.device);
    assert_eq!(a.brand, b.brand);
    assert_eq!(a.model, b.model);
}

#[test]
fn mozlila_marker_forces_spider_device() {
    let mut s = services();
    let a = s.get_agent("Mozlila/5.0 (compatible)");
    assert_eq!(a.device, Some("Spider".to_string()));
    let b = s.get_agent("Mozilla/5.0 (unknown)");
    assert_eq!(b.device, None);
}

#[test]
fn geolocation_miss_is_all_absent() {
    let mut s = services();
    let g1 = s.get_geolocation("127.0.0.1");
    assert_eq!(g1.country, None);
    assert_eq!(g1.continent, None);
    assert_eq!(g1.asn, None);
    assert_eq!(g1.as_name, None);
    assert_eq!(g1.as_domain, None);
    let g2 = s.get_geolocation("127.0.0.1");
    assert_eq!(g2.country, None);
}

#[test]
fn structural_errors_are_classified() {
    let mut s = services();
    let c = config(0, "https://example.com");
    let cases: Vec<(&str, &str)> = vec![
        ("nonsense", "IP not found"),
        ("999.1.1.1 - - [10/Oct/2023:13:55:36 +0000] \"GET / HTTP/1.1\" 200 1 \"-\" \"\"",
            "Invalid IP"),
        ("1.1.1.1 - - [bad date] \"GET / HTTP/1.1\" 200 1 \"-\" \"\"", "Invalid datetime"),
        ("1.1.1.1 - - [10/Oct/2023:13:55:36 +0000] \"\" 200 1 \"-\" \"\"", "Empty request"),
        ("1.1.1.1 - - [10/Oct/2023:13:55:36 +0000] \"FETCH / HTTP/1.1\" 200 1 \"-\" \"\"",
            "Invalid HTTP method"),
        ("1.1.1.1 - - [10/Oct/2023:13:55:36 +0000] \"GET / HTTP/9.9\" 200 1 \"-\" \"\"",
            "Invalid HTTP version"),
        ("1.1.1.1 - - [10/Oct/2023:13:55:36 +0000] \"GET / HTTP/1.1\" abc 1 \"-\" \"\"",
            "Invalid status code"),
        ("1.1.1.1 - - [10/Oct/2023:13:55:36 +0000] \"GET / HTTP/1.1\" 200 -5 \"-\" \"\"",
            "Invalid size"),
        ("1.1.1.1 - - [10/Oct/2023:13:55:36 +0000] \"GET / HTTP/1.1\" 200 1 \"-\"",
            "User agent not found"),
    ];
    for (line, reason) in cases {
        let err = LogEntry::parse(line.to_string(), &mut s, &c).unwrap_err();
        assert!(!err.is_filtered());
        assert_eq!(
            err.display_string(),
            format!("Invalid entry: {} ({})", line, reason)
        );
    }
}

#[test]
fn extension_is_lowercased() {
    let mut s = services();
    let c = config(0, "https://example.com");
    let line = "1.1.1.1 - - [10/Oct/2023:13:55:36 +0000] \"GET /Files/REPORT.PDF HTTP/1.0\" 200 1 \"-\" \"\"";
    let entry = LogEntry::parse(line.to_string(), &mut s, &c).unwrap();
    assert_eq!(entry.path, "/Files/REPORT.PDF");
    assert_eq!(entry.extension, Some("pdf".to_string()));
}

#[test]
fn duplicate_query_keys_take_last_value() {
    let mut s = services();
    let c = config(0, "https://example.com");
    let line = "1.1.1.1 - - [10/Oct/2023:13:55:36 +0000] \"GET /p?k=1&k=2&z=9 HTTP/1.1\" 200 1 \"-\" \"\"";
    let entry = LogEntry::parse(line.to_string(), &mut s, &c).unwrap();
    let pq = entry.parsed_query.as_ref().unwrap();
    assert_eq!(pq.len(), 2);
    assert_eq!(pq.get("k"), Some(&"2".to_string()));
    assert_eq!(pq.get("z"), Some(&"9".to_string()));
}

#[test]
fn bad_origin_is_refused_by_config() {
    assert!(ParseConfig::new(0, "not a url").is_none());
    assert!(ParseConfig::new(5, "https://example.com").is_some());
}

#[test]
fn old_line_with_bad_method_is_filtered_not_an_error() {
    let mut s = services();
    let c = config(example_micros(), "https://example.com");
    let line = "1.1.1.1 - - [10/Oct/2023:13:55:36 +0000] \"FETCH / HTTP/1.1\" 200 1 \"-\" \"\"";
    let err = LogEntry::parse(line.to_string(), &mut s, &c).unwrap_err();
    assert!(err.is_filtered());
}

#[test]
fn bad_ip_is_rejected_before_the_watermark() {
    let mut s = services();
    let c = config(example_micros(), "https://example.com");
    let line = "999.1.1.1 - - [10/Oct/2023:13:55:36 +0000] \"GET / HTTP/1.1\" 200 1 \"-\" \"\"";
    let err = LogEntry::parse(line.to_string(), &mut s, &c).unwrap_err();
    assert!(!err.is_filtered());
    assert_eq!(
        err.display_string(),
        format!("Invalid entry: {} (Invalid IP)", line)
    );
}

#[test]
fn ipv6_clients_are_accepted() {
    let mut s = services();
    let c = config(0, "https://example.com");
    let line = "2001:db8::1 - - [10/Oct/2023:13:55:36 +0000] \"GET / HTTP/3.0\" 204 0 \"-\" \"\"";
    let entry = LogEntry::parse(line.to_string(), &mut s, &c).unwrap();
    assert_eq!(entry.ip, "2001:db8::1");
    assert_eq!(entry.http_version, HttpVersion::HTTP30);
    assert_eq!(entry.status_code, 204);
    assert_eq!(entry.size, 0);
    assert_eq!(entry.path, "/");
    assert_eq!(entry.extension, None);
    assert_eq!(entry.query, None);
    assert!(entry.parsed_query.is_none());
}

#[test]
fn query_string_keeps_its_slashes() {
    let mut s = services();
    let c = config(0, "https://example.com");
    let line = "1.1.1.1 - - [10/Oct/2023:13:55:36 +0000] \"GET /r//s?u=https://e.com/p HTTP/1.1\" 200 1 \"-\" \"\"";
    let entry = LogEntry::parse(line.to_string(), &mut s, &c).unwrap();
    assert_eq!(entry.path, "/r/s");
    assert_eq!(entry.query, Some("u=https://e.com/p".to_string()));
    let pq = entry.parsed_query.as_ref().unwrap();
    assert_eq!(pq.get("u"), Some(&"https://e.com/p".to_string()));
}

#[test]
fn client_address_is_canonicalized() {
    let mut s = services();
    let c = config(0, "https://example.com");
    let line = "2001:DB8:0:0:0:0:0:1 - - [10/Oct/2023:13:55:36 +0000] \"GET / HTTP/1.1\" 200 1 \"-\" \"\"";
    let entry = LogEntry::parse(line.to_string(), &mut s, &c).unwrap();
    assert_eq!(entry.ip, "2001:db8::1");
}
