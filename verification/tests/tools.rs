use toxo::error::LogError;
use toxo::http::{HttpMethod, HttpVersion};
use toxo::ip::{canonicalize_ip, check_ipv4, check_ipv6, is_valid_ip, split};
use toxo::text::{collapse_doubled_slashes, collapse_request_target, escape, extension_of_path,
    lowercase, parse_u16,
    parse_usize, replace_extension, str_eq};
use toxo::urls::{hashmap_to_string, parse_form_pairs, QueryMap};
use toxo::{find, Patt};

#[test]
fn cursor_finds_first_occurrence() {
    let line = "a bc d".to_string();
    let (field, pos) = find(0, &line, &Patt::Char(' ')).unwrap();
    assert_eq!(field, "a");
    assert_eq!(pos, 1);
    let (field2, pos2) = find(2, &line, &Patt::Char(' ')).unwrap();
    assert_eq!(field2, "bc");
    assert_eq!(pos2, 4);
    assert!(find(0, &line, &Patt::Char('z')).is_err());
    let http_line = "GET /x HTTP/1.1".to_string();
    let (path, at) = find(4, &http_line, &Patt::Str(" HTTP/")).unwrap();
    assert_eq!(path, "/x");
    assert_eq!(at, 6);
    assert!(find(99, &http_line, &Patt::Char(' ')).is_err());
}

#[test]
fn methods_round_trip_exactly() {
    let names = ["GET", "POST", "PUT", "DELETE", "HEAD", "OPTIONS", "CONNECT", "TRACE", "PATCH"];
    for name in names {
        let m = HttpMethod::new(name).unwrap();
        assert_eq!(m.to_string(), name);
    }
    assert!(HttpMethod::new("get").is_err());
    assert!(HttpMethod::new("").is_err());
    assert!(HttpMethod::new("GETX").is_err());
}

#[test]
fn versions_round_trip_exactly() {
    let names = ["HTTP/1.0", "HTTP/1.1", "HTTP/2.0", "HTTP/3.0"];
    for name in names {
        let v = HttpVersion::new(name).unwrap();
        assert_eq!(v.to_string(), name);
    }
    assert!(HttpVersion::new("HTTP/0.9").is_err());
    assert!(HttpVersion::new("http/1.1").is_err());
}

#[test]
fn numbers_parse_like_unsigned_decimals() {
    assert_eq!(parse_u16("200"), Some(200));
    assert_eq!(parse_u16("+7"), Some(7));
    assert_eq!(parse_u16("0016"), Some(16));
    assert_eq!(parse_u16("65535"), Some(65535));
    assert_eq!(parse_u16("65536"), None);
    assert_eq!(parse_u16("12a"), None);
    assert_eq!(parse_u16(""), None);
    assert_eq!(parse_u16("+"), None);
    assert_eq!(parse_u16("-1"), None);
    assert_eq!(parse_usize("512"), Some(512));
    assert_eq!(parse_usize("0"), Some(0));
    assert_eq!(parse_usize("99999999999999999999999999"), None);
    assert_eq!(parse_usize(" 1"), None);
}

#[test]
fn slash_collapsing_reaches_a_fixpoint() {
    assert_eq!(collapse_doubled_slashes("/a//b.html"), "/a/b.html");
    assert_eq!(collapse_doubled_slashes("//a"), "/a");
    assert_eq!(collapse_doubled_slashes("////a///b"), "/a/b");
    assert_eq!(collapse_doubled_slashes("/a/b"), "/a/b");
    assert_eq!(collapse_doubled_slashes(""), "");
    let once = collapse_doubled_slashes("///x//y///z");
    let twice = collapse_doubled_slashes(&once);
    assert_eq!(once, twice);
    assert_eq!(collapse_request_target("/a//b?x=//y"), "/a/b?x=//y");
    assert_eq!(collapse_request_target("//a//b"), "/a/b");
    assert_eq!(collapse_request_target("?//"), "?//");
}

#[test]
fn ip_literals_validate() {
    assert!(is_valid_ip("127.0.0.1"));
    assert!(is_valid_ip("255.255.255.255"));
    assert!(is_valid_ip("0.0.0.0"));
    assert!(!is_valid_ip("256.1.1.1"));
    assert!(!is_valid_ip("01.2.3.4"));
    assert!(!is_valid_ip("1.2.3"));
    assert!(!is_valid_ip("1.2.3.4.5"));
    assert!(!is_valid_ip("abc"));
    assert!(!is_valid_ip(""));
    assert!(is_valid_ip("::1"));
    assert!(is_valid_ip("::"));
    assert!(is_valid_ip("1:2:3:4:5:6:7:8"));
    assert!(is_valid_ip("fe80::1"));
    assert!(is_valid_ip("::ffff:192.168.0.1"));
    assert!(is_valid_ip("1:2:3:4:5:6:77.77.88.88"));
    assert!(!is_valid_ip("1::2::3"));
    assert!(!is_valid_ip("1:2:3:4:5:6:7:8:9"));
    assert!(!is_valid_ip("12345::"));
    assert!(!is_valid_ip(":1:2:3:4:5:6:7"));
    assert!(!is_valid_ip("1:2:3:4:5:6:7:"));
    assert!(is_valid_ip("1:2:3:4:5:6:7::"));
    assert!(!is_valid_ip("1:2:3:4:5:6:7:8::"));
}

#[test]
fn split_separates_on_every_occurrence() {
    assert_eq!(split("a.b.c", '.'), vec!["a", "b", "c"]);
    assert_eq!(split("", '.'), vec![""]);
    assert_eq!(split("..", '.'), vec!["", "", ""]);
    assert!(check_ipv4("1.2.3.4"));
    assert!(!check_ipv4("1.2.3.4.5"));
    assert!(check_ipv6("a:b:c:d:e:f:1:2"));
    assert!(!check_ipv6("g::1"));
}

#[test]
fn escaping_quotes_and_backslashes() {
    assert_eq!(escape("plain"), "plain");
    assert_eq!(escape("a'b"), "a\\'b");
    assert_eq!(escape("a\\b"), "a\\\\b");
    assert_eq!(escape("\\'"), "\\\\\\'");
}

#[test]
fn query_map_renders_each_key_once() {
    let pairs = parse_form_pairs("x=1");
    let map = QueryMap::from_pairs(&pairs);
    assert_eq!(map.len(), 1);
    assert_eq!(hashmap_to_string(&map), "{'x'='1'}");
    let empty = QueryMap::from_pairs(&parse_form_pairs(""));
    assert_eq!(hashmap_to_string(&empty), "{}");
}

#[test]
fn form_pairs_decode_percent_escapes() {
    let pairs = parse_form_pairs("a%20b=1+2&c=%27");
    let map = QueryMap::from_pairs(&pairs);
    assert_eq!(map.get("a b"), Some(&"1 2".to_string()));
    assert_eq!(map.get("c"), Some(&"'".to_string()));
    assert_eq!(map.get("missing"), None);
}

#[test]
fn extensions_come_from_the_final_segment() {
    assert_eq!(extension_of_path("/a/b.html"), Some("html".to_string()));
    assert_eq!(extension_of_path("/a/b"), None);
    assert_eq!(extension_of_path("/a.d/b"), None);
    assert_eq!(extension_of_path("/a/.hidden"), None);
    assert_eq!(extension_of_path("/a/b.tar.gz"), Some("gz".to_string()));
    assert_eq!(extension_of_path("/"), None);
    assert_eq!(extension_of_path("/a.d/"), Some("d".to_string()));
    assert_eq!(lowercase("HTML"), "html");
    assert_eq!(lowercase(""), "");
}

#[test]
fn output_names_replace_the_log_suffix() {
    assert_eq!(replace_extension("access.log", ".db"), "access.db");
    assert_eq!(replace_extension("access.log", ".err"), "access.err");
    assert_eq!(replace_extension("data.txt", ".db"), "data.txt.db");
    assert_eq!(replace_extension("", ".db"), ".db");
}

#[test]
fn log_errors_carry_line_and_reason() {
    let e = LogError::new("raw line", "Invalid IP");
    assert!(!e.is_filtered());
    assert_eq!(e.display_string(), "Invalid entry: raw line (Invalid IP)");
    let f = LogError::new_filtered("raw line");
    assert!(f.is_filtered());
}

#[test]
fn string_comparison_is_by_characters() {
    assert!(str_eq("abc", "abc"));
    assert!(!str_eq("abc", "abd"));
    assert!(!str_eq("abc", "ab"));
    assert!(str_eq("", ""));
}

#[test]
fn addresses_render_canonically() {
    assert_eq!(canonicalize_ip("127.0.0.1"), "127.0.0.1");
    assert_eq!(canonicalize_ip("255.255.255.255"), "255.255.255.255");
    assert_eq!(canonicalize_ip("2001:DB8:0:0:0:0:0:1"), "2001:db8::1");
    assert_eq!(canonicalize_ip("2001:db8::1"), "2001:db8::1");
    assert_eq!(canonicalize_ip("0:0:0:0:0:0:0:0"), "::");
    assert_eq!(canonicalize_ip("0:0:0:0:0:0:0:1"), "::1");
    assert_eq!(canonicalize_ip("::FFFF:192.168.0.1"), "::ffff:192.168.0.1");
    assert_eq!(canonicalize_ip("::ffff:1.2.3.4"), "::ffff:1.2.3.4");
    assert_eq!(canonicalize_ip("1:0:0:1:0:0:0:1"), "1:0:0:1::1");
    assert_eq!(canonicalize_ip("1:0:0:1:1:0:0:1"), "1::1:1:0:0:1");
    assert_eq!(canonicalize_ip("fe80:0:0:0:0:0:0:1"), "fe80::1");
    assert_eq!(canonicalize_ip("1:2:3:4:5:6:77.77.88.88"), "1:2:3:4:5:6:4d4d:5858");
    assert_eq!(canonicalize_ip("ABCD::EF01"), "abcd::ef01");
    assert_eq!(canonicalize_ip("1:2:3:4:5:6:7:8"), "1:2:3:4:5:6:7:8");
    assert_eq!(canonicalize_ip("0001:0:0:0:0:0:0:1"), "1::1");
}
